//! Incremental, case-insensitive search through a buffer.

use vstd::prelude::*;
use vstd::utf8::*;
use std::ops::Range;
use crate::buffer::{Buffer, BufferView, min_int, max_int};
use crate::text::{lowercase, to_lowercase, push_char, pop_char, utf8_len, utf8_len_of};

verus! {

/// The first position at or after `i` where `n` occurs in `h`, byte for byte.
pub open spec fn find_from(h: Seq<u8>, n: Seq<u8>, i: int) -> Option<int>
    decreases h.len() + 1 - i,
{
    if i < 0 || i > h.len() || i + n.len() > h.len() {
        None
    } else if h.subrange(i, i + n.len()) == n {
        Some(i)
    } else {
        find_from(h, n, i + 1)
    }
}

/// A match found from `i` on lies at or after `i` and within `h`, and `n`
/// occurs there.
pub proof fn lemma_find_from(h: Seq<u8>, n: Seq<u8>, i: int)
    ensures
        find_from(h, n, i) matches Some(s) ==> i <= s && s + n.len() <= h.len() && h.subrange(
            s,
            s + n.len(),
        ) == n,
    decreases h.len() + 1 - i,
{
    if !(i < 0 || i > h.len() || i + n.len() > h.len()) && h.subrange(i, i + n.len()) != n {
        lemma_find_from(h, n, i + 1);
    }
}

/// The matches that searching `h` for `n` from `from` on collects: each match
/// covers `qlen` bytes from where `n` occurs, and the search goes on from the
/// match's end (at least one byte further).  `None` where the search would
/// resume at an offset that is not a character boundary of `h`.
pub open spec fn scan_matches(h: Seq<u8>, n: Seq<u8>, qlen: int, from: int) -> Option<
    Seq<(int, int)>,
>
    decreases h.len() + 1 - from,
{
    if !(0 <= from <= h.len() && is_char_boundary(h, from)) {
        None
    } else {
        match find_from(h, n, from) {
            None => Some(Seq::empty()),
            Some(start) => {
                proof {
                    lemma_find_from(h, n, from);
                }
                let next = max_int(start + qlen, start + 1);
                if next > h.len() {
                    None
                } else {
                    match scan_matches(h, n, qlen, next) {
                        None => None,
                        Some(rest) => Some(seq![(start, start + qlen)] + rest),
                    }
                }
            },
        }
    }
}

/// Whether `n` occurs in `h` at byte offset `p`.
pub open spec fn occurs_at(h: Seq<u8>, n: Seq<u8>, p: int) -> bool {
    0 <= p && p + n.len() <= h.len() && h.subrange(p, p + n.len()) == n
}

/// `find_from` gives the first occurrence at or after `i`: none lies between
/// `i` and it, and where it gives none there is none at or after `i`.
proof fn lemma_find_from_first(h: Seq<u8>, n: Seq<u8>, i: int)
    requires
        0 <= i,
    ensures
        match find_from(h, n, i) {
            Some(s) => occurs_at(h, n, s) && forall|p: int| i <= p < s ==> !#[trigger] occurs_at(h, n, p),
            None => forall|p: int| i <= p ==> !#[trigger] occurs_at(h, n, p),
        },
    decreases h.len() + 1 - i,
{
    lemma_find_from(h, n, i);
    if !(i > h.len() || i + n.len() > h.len()) && h.subrange(i, i + n.len()) != n {
        lemma_find_from_first(h, n, i + 1);
    }
}

/// No occurrence is left out: every place at or after where the search
/// began where the query occurs is the start of a match, or lies inside a
/// match before the point where the search went on (its end, at least one
/// byte after its start).
pub proof fn law_matches_are_complete(h: Seq<u8>, n: Seq<u8>, qlen: int, from: int)
    requires
        qlen >= 0,
    ensures
        scan_matches(h, n, qlen, from) matches Some(m) ==> forall|p: int|
            from <= p && #[trigger] occurs_at(h, n, p) ==> exists|i: int|
                #![trigger m[i]]
                0 <= i < m.len() && m[i].0 <= p < max_int(m[i].0 + qlen, m[i].0 + 1),
    decreases h.len() + 1 - from,
{
    if 0 <= from <= h.len() && is_char_boundary(h, from) {
        lemma_find_from_first(h, n, from);
        lemma_find_from(h, n, from);
        match find_from(h, n, from) {
            None => {
                assert(scan_matches(h, n, qlen, from) == Some(Seq::<(int, int)>::empty()));
            },
            Some(start) => {
                let next = max_int(start + qlen, start + 1);
                if next <= h.len() {
                    law_matches_are_complete(h, n, qlen, next);
                    match scan_matches(h, n, qlen, next) {
                        None => {
                            assert(scan_matches(h, n, qlen, from) is None);
                        },
                        Some(rest) => {
                            let m = seq![(start, start + qlen)] + rest;
                            assert(scan_matches(h, n, qlen, from) == Some(m));
                            assert forall|p: int| from <= p && #[trigger] occurs_at(h, n, p) implies exists|i: int|
                                #![trigger m[i]]
                                0 <= i < m.len() && m[i].0 <= p < max_int(m[i].0 + qlen, m[i].0 + 1) by {
                                if p < next {
                                    assert(m[0] == (start, start + qlen));
                                } else {
                                    let j = choose|j: int|
                                        #![trigger rest[j]]
                                        0 <= j < rest.len() && rest[j].0 <= p < max_int(
                                            rest[j].0 + qlen,
                                            rest[j].0 + 1,
                                        );
                                    assert(m[j + 1] == rest[j]);
                                }
                            }
                        },
                    }
                } else {
                    assert(scan_matches(h, n, qlen, from) is None);
                }
            },
        }
    } else {
        assert(scan_matches(h, n, qlen, from) is None);
    }
}

/// Each match a search finds is an occurrence of what was searched for, at
/// or after where the search began and as long as the query; the matches
/// come in order and do not overlap.
pub proof fn law_matches_are_ordered_occurrences(h: Seq<u8>, n: Seq<u8>, qlen: int, from: int)
    requires
        qlen >= 0,
    ensures
        scan_matches(h, n, qlen, from) matches Some(m) ==> {
            &&& forall|i: int|
                0 <= i < m.len() ==> {
                    &&& from <= (#[trigger] m[i]).0
                    &&& m[i].1 == m[i].0 + qlen
                    &&& m[i].0 + n.len() <= h.len()
                    &&& h.subrange(m[i].0, m[i].0 + n.len()) == n
                }
            &&& forall|i: int, j: int| 0 <= i < j < m.len() ==> (#[trigger] m[i]).1 <= (#[trigger] m[j]).0
        },
    decreases h.len() + 1 - from,
{
    if 0 <= from <= h.len() && is_char_boundary(h, from) {
        lemma_find_from(h, n, from);
        match find_from(h, n, from) {
            None => {},
            Some(start) => {
                let next = max_int(start + qlen, start + 1);
                if next <= h.len() {
                    law_matches_are_ordered_occurrences(h, n, qlen, next);
                    match scan_matches(h, n, qlen, next) {
                        None => {},
                        Some(rest) => {
                            let m = seq![(start, start + qlen)] + rest;
                            assert(scan_matches(h, n, qlen, from) == Some(m));
                            assert forall|i: int| 0 <= i < m.len() implies {
                                &&& from <= (#[trigger] m[i]).0
                                &&& m[i].1 == m[i].0 + qlen
                                &&& m[i].0 + n.len() <= h.len()
                                &&& h.subrange(m[i].0, m[i].0 + n.len()) == n
                            } by {
                                if i > 0 {
                                    assert(m[i] == rest[i - 1]);
                                }
                            }
                            assert forall|i: int, j: int| 0 <= i < j < m.len() implies (#[trigger] m[i]).1
                                <= (#[trigger] m[j]).0 by {
                                assert(m[j] == rest[j - 1]);
                                if i > 0 {
                                    assert(m[i] == rest[i - 1]);
                                }
                            }
                        },
                    }
                }
            },
        }
    }
}

/// Going to the next match and then the previous one brings the search back
/// to where it was and leaves the cursor at the start of the current match
/// (clamped to the end of the text), with no selection.
pub proof fn law_next_then_previous(s: SearchView, b: BufferView)
    requires
        0 <= s.current < s.matches.len(),
    ensures
        s.stepped_next().stepped_previous() == s,
        b.with_cursor(s.matches[s.stepped_next().current].0, false).with_cursor(
            s.matches[s.stepped_next().stepped_previous().current].0,
            false,
        ) == b.with_cursor(s.matches[s.current].0, false),
        0 <= s.matches[s.current].0 ==> b.with_cursor(s.matches[s.current].0, false).cursor
            == min_int(s.matches[s.current].0, b.len() as int),
        b.with_cursor(s.matches[s.current].0, false).anchor is None,
{
    law_previous_undoes_next(s);
}

/// Going to the previous match undoes going to the next one, and the
/// other way round, for a search whose current match is one of its matches.
pub proof fn law_previous_undoes_next(s: SearchView)
    requires
        s.matches.len() == 0 || 0 <= s.current < s.matches.len(),
    ensures
        s.stepped_next().stepped_previous() == s,
        s.stepped_previous().stepped_next() == s,
{
    if s.matches.len() > 0 {
        let len = s.matches.len() as int;
        let c = s.current;
        assert((c + 1) % len == if c + 1 < len { c + 1 } else { 0 }) by (nonlinear_arith)
            requires
                0 <= c < len,
        {
            if c + 1 < len {
                assert((c + 1) % len == c + 1);
            } else {
                assert(c + 1 == len);
            }
        }
        let p = if c == 0 { len - 1 } else { c - 1 };
        assert((p + 1) % len == if p + 1 < len { p + 1 } else { 0 }) by (nonlinear_arith)
            requires
                0 <= p < len,
        {
            if p + 1 < len {
                assert((p + 1) % len == p + 1);
            } else {
                assert(p + 1 == len);
            }
        }
        assert(s.stepped_next().stepped_previous() =~= s);
        assert(s.stepped_previous().stepped_next() =~= s);
    }
}

/// Index of the first match that starts at or after `cursor`, if any.
pub open spec fn position_at_or_after(m: Seq<(int, int)>, cursor: int) -> Option<int>
    decreases m.len(),
{
    if m.len() == 0 {
        None
    } else if m[0].0 >= cursor {
        Some(0)
    } else {
        match position_at_or_after(m.drop_first(), cursor) {
            Some(i) => Some(i + 1),
            None => None,
        }
    }
}

/// Index of the first match that starts at or after `cursor`; 0 if none.
pub open spec fn first_at_or_after(m: Seq<(int, int)>, cursor: int) -> int {
    match position_at_or_after(m, cursor) {
        Some(i) => i,
        None => 0,
    }
}

/// The matches of a query in a text: the scan of the lowercased text for the
/// lowercased query, each match as long as the query itself.
pub open spec fn search_matches(text: Seq<char>, query: Seq<char>) -> Option<Seq<(int, int)>> {
    scan_matches(
        encode_utf8(lowercase(text)),
        encode_utf8(lowercase(query)),
        utf8_len(query) as int,
        0,
    )
}

/// The mathematical form of a search.
pub struct SearchView {
    pub active: bool,
    pub query: Seq<char>,
    pub matches: Seq<(int, int)>,
    pub current: int,
}

/// The state of the search overlay.
#[derive(Debug)]
pub struct SearchState {
    pub active: bool,
    pub query: String,
    matches: Vec<Range<usize>>,
    current: usize,
}

impl View for SearchState {
    type V = SearchView;

    closed spec fn view(&self) -> SearchView {
        SearchView {
            active: self.active,
            query: self.query@,
            matches: self.matches@.map_values(|r: Range<usize>| (r.start as int, r.end as int)),
            current: self.current as int,
        }
    }
}

impl SearchView {
    /// The matches and current match after searching `text` with the cursor
    /// at `cursor`; nothing where the search would resume inside a character.
    pub open spec fn recomputed(self, text: Seq<char>, cursor: int) -> SearchView {
        if self.query.len() == 0 {
            SearchView { matches: Seq::empty(), current: 0, ..self }
        } else {
            match search_matches(text, self.query) {
                Some(m) => SearchView { matches: m, current: first_at_or_after(m, cursor), ..self },
                None => SearchView { matches: Seq::empty(), current: 0, ..self },
            }
        }
    }

    /// The search after Ctrl+G: the next match, round to the first.
    pub open spec fn stepped_next(self) -> SearchView {
        if self.matches.len() == 0 {
            self
        } else {
            SearchView { current: (self.current + 1) % (self.matches.len() as int), ..self }
        }
    }

    /// The search after Ctrl+Shift+G: the previous match, round to the last.
    pub open spec fn stepped_previous(self) -> SearchView {
        if self.matches.len() == 0 {
            self
        } else {
            SearchView {
                current: if self.current == 0 {
                    self.matches.len() - 1
                } else {
                    self.current - 1
                },
                ..self
            }
        }
    }

    /// True when searching `text` for the query goes through.
    pub open spec fn search_completes(self, text: Seq<char>) -> bool {
        self.query.len() == 0 || search_matches(text, self.query) is Some
    }
}

impl Default for SearchState {
    fn default() -> (s: SearchState)
        ensures
            s.wf(),
            !s@.active,
            s@.query.len() == 0,
            s@.matches.len() == 0,
            s@.current == 0,
    {
        let s = SearchState { active: false, query: String::new(), matches: Vec::new(), current: 0 };
        proof {
            assert(s@.matches =~= Seq::<(int, int)>::empty());
        }
        s
    }
}

/// First byte position at or after `from` where `n` occurs in `h`.
fn find_bytes(h: &[u8], n: &[u8], from: usize) -> (r: Option<usize>)
    ensures
        match r {
            Some(i) => find_from(h@, n@, from as int) == Some(i as int),
            None => find_from(h@, n@, from as int) is None,
        },
{
    if n.len() > h.len() {
        proof {
            assert(find_from(h@, n@, from as int) is None);
        }
        return None;
    }
    let hl = h.len();
    let last = hl - n.len();
    let mut i = from;
    while i <= last
        invariant
            hl == h@.len(),
            last == h@.len() - n@.len(),
            from <= i,
            find_from(h@, n@, from as int) == find_from(h@, n@, i as int),
        decreases last + 1 - i,
    {
        let mut j: usize = 0;
        while j < n.len()
            invariant
                i <= last,
                hl == h@.len(),
                last == h@.len() - n@.len(),
                i + n@.len() <= h@.len(),
                j <= n@.len(),
                forall|k: int| 0 <= k < j ==> h@[i + k] == n@[k],
            ensures
                j <= n@.len(),
                forall|k: int| 0 <= k < j ==> h@[i + k] == n@[k],
                j == n@.len() || h@[i + j] != n@[j as int],
            decreases n@.len() - j,
        {
            if h[i + j] != n[j] {
                break;
            }
            j = j + 1;
        }
        if j == n.len() {
            proof {
                assert(h@.subrange(i as int, i + n@.len()) =~= n@);
            }
            return Some(i);
        }
        proof {
            assert(h@[i + j] != n@[j as int]);
            assert(h@.subrange(i as int, i + n@.len())[j as int] != n@[j as int]);
        }
        i = i + 1;
    }
    None
}

/// The matches of `needle` in `haystack` as `scan_matches` defines them, or
/// `None` where that scan gives none.
fn scan(haystack: &str, needle: &str, qlen: usize) -> (r: Option<Vec<Range<usize>>>)
    ensures
        match r {
            Some(v) => scan_matches(encode_utf8(haystack@), encode_utf8(needle@), qlen as int, 0)
                == Some(v@.map_values(|x: Range<usize>| (x.start as int, x.end as int))),
            None => scan_matches(encode_utf8(haystack@), encode_utf8(needle@), qlen as int, 0) is None,
        },
{
    let h = haystack.as_bytes();
    let n = needle.as_bytes();
    let mut out: Vec<Range<usize>> = Vec::new();
    let mut from: usize = 0;
    let ghost hs = h@;
    let ghost ns = n@;
    loop
        invariant
            hs == h@,
            ns == n@,
            hs == encode_utf8(haystack@),
            ns == encode_utf8(needle@),
            scan_matches(hs, ns, qlen as int, 0) == match scan_matches(hs, ns, qlen as int, from as int) {
                Some(rest) => Some(out@.map_values(|x: Range<usize>| (x.start as int, x.end as int)) + rest),
                None => None::<Seq<(int, int)>>,
            },
        decreases hs.len() + 1 - from,
    {
        if !(from <= h.len() && haystack.is_char_boundary(from)) {
            return None;
        }
        match find_bytes(h, n, from) {
            None => {
                proof {
                    assert(out@.map_values(|x: Range<usize>| (x.start as int, x.end as int))
                        + Seq::<(int, int)>::empty() =~= out@.map_values(
                        |x: Range<usize>| (x.start as int, x.end as int),
                    ));
                }
                return Some(out);
            },
            Some(start) => {
                proof {
                    lemma_find_from(hs, ns, from as int);
                }
                let end = match start.checked_add(qlen) {
                    Some(e) => e,
                    None => {
                        proof {
                            let next = max_int(start + qlen, start + 1);
                            assert(!(0 <= next <= hs.len()));
                            assert(scan_matches(hs, ns, qlen as int, next) is None);
                        }
                        return None;
                    },
                };
                let next = if end > start {
                    end
                } else if start < h.len() {
                    start + 1
                } else {
                    proof {
                        let next = max_int(start + qlen, start + 1);
                        assert(!(0 <= next <= hs.len()));
                        assert(scan_matches(hs, ns, qlen as int, next) is None);
                    }
                    return None;
                };
                if next > h.len() {
                    return None;
                }
                let ghost prev = out@.map_values(|x: Range<usize>| (x.start as int, x.end as int));
                out.push(start..end);
                proof {
                    assert(out@.map_values(|x: Range<usize>| (x.start as int, x.end as int))
                        =~= prev.push((start as int, end as int)));
                    match scan_matches(hs, ns, qlen as int, next as int) {
                        Some(rest) => {
                            assert(prev + (seq![(start as int, end as int)] + rest) =~= prev.push(
                                (start as int, end as int),
                            ) + rest);
                        },
                        None => {},
                    }
                }
                from = next;
            },
        }
    }
}

impl SearchState {
    /// The search's internal invariant: the current match exists unless
    /// there are none.
    pub closed spec fn wf(&self) -> bool {
        self.matches@.len() == 0 || self.current < self.matches@.len()
    }

    /// A well-formed search's current match is one of its matches.
    pub proof fn lemma_wf_current(&self)
        requires
            self.wf(),
        ensures
            self@.matches.len() > 0 ==> 0 <= self@.current < self@.matches.len(),
    {
    }

    /// Searches the buffer for the query again; the current match becomes the
    /// first at or after the cursor.  Returns false, with no matches, where
    /// the search would resume inside a character of the lowercased text.
    pub fn recompute(&mut self, buffer: &Buffer) -> (ok: bool)
        requires
            old(self).wf(),
            buffer.wf(),
        ensures
            final(self).wf(),
            final(self)@ == old(self)@.recomputed(buffer@.text(), buffer@.cursor as int),
            ok == old(self)@.search_completes(buffer@.text()),
    {
        self.matches.clear();
        self.current = 0;
        if self.query.as_str().is_empty() {
            proof {
                assert(self@.matches =~= Seq::<(int, int)>::empty());
            }
            return true;
        }
        let text = buffer.text();
        let needle = to_lowercase(self.query.as_str());
        let haystack = to_lowercase(text.as_str());
        let qlen = utf8_len_of(self.query.as_str());
        match scan(haystack.as_str(), needle.as_str(), qlen) {
            None => {
                proof {
                    assert(self@.matches =~= Seq::<(int, int)>::empty());
                }
                false
            },
            Some(found) => {
                self.matches = found;
                let cursor = buffer.cursor();
                let mut i: usize = 0;
                let n = self.matches.len();
                let ghost m = self@.matches;
                while i < n && self.matches[i].start < cursor
                    invariant
                        n == self.matches@.len(),
                        m == self@.matches,
                        i <= n,
                        forall|k: int| 0 <= k < i ==> m[k].0 < cursor,
                    decreases n - i,
                {
                    i = i + 1;
                }
                self.current = if i < n {
                    i
                } else {
                    0
                };
                proof {
                    lemma_first_at_or_after(m, cursor as int, i as int);
                }
                true
            },
        }
    }

    /// Opens the search overlay and searches again.
    pub fn open(&mut self, buffer: &Buffer) -> (ok: bool)
        requires
            old(self).wf(),
            buffer.wf(),
        ensures
            final(self).wf(),
            final(self)@ == (SearchView { active: true, ..old(self)@ }).recomputed(
                buffer@.text(),
                buffer@.cursor as int,
            ),
            ok == old(self)@.search_completes(buffer@.text()),
    {
        self.active = true;
        self.recompute(buffer)
    }

    pub fn close(&mut self)
        ensures
            final(self)@ == (SearchView { active: false, ..old(self)@ }),
            final(self).wf() == old(self).wf(),
    {
        self.active = false;
    }

    /// Adds a character to the query and searches again.
    pub fn push(&mut self, ch: char, buffer: &Buffer) -> (ok: bool)
        requires
            old(self).wf(),
            buffer.wf(),
        ensures
            final(self).wf(),
            final(self)@ == (SearchView { query: old(self)@.query.push(ch), ..old(self)@ }).recomputed(
                buffer@.text(),
                buffer@.cursor as int,
            ),
            ok == (SearchView { query: old(self)@.query.push(ch), ..old(self)@ }).search_completes(
                buffer@.text(),
            ),
    {
        push_char(&mut self.query, ch);
        self.recompute(buffer)
    }

    /// Removes the query's last character and searches again.
    pub fn pop(&mut self, buffer: &Buffer) -> (ok: bool)
        requires
            old(self).wf(),
            buffer.wf(),
        ensures
            final(self).wf(),
            ({
                let q = if old(self)@.query.len() > 0 {
                    old(self)@.query.drop_last()
                } else {
                    old(self)@.query
                };
                &&& final(self)@ == (SearchView { query: q, ..old(self)@ }).recomputed(
                    buffer@.text(),
                    buffer@.cursor as int,
                )
                &&& ok == (SearchView { query: q, ..old(self)@ }).search_completes(buffer@.text())
            }),
    {
        let _ = pop_char(&mut self.query);
        self.recompute(buffer)
    }

    /// Moves to the next match (wrapping around) and puts the cursor at its
    /// start.
    pub fn next(&mut self, buffer: &mut Buffer)
        requires
            old(self).wf(),
            old(buffer).wf(),
        ensures
            final(self).wf(),
            final(buffer).wf(),
            final(self)@ == old(self)@.stepped_next(),
            old(self)@.matches.len() == 0 ==> final(self)@ == old(self)@ && final(buffer)@ == old(
                buffer,
            )@,
            old(self)@.matches.len() > 0 ==> {
                let c = (old(self)@.current + 1) % (old(self)@.matches.len() as int);
                &&& final(self)@ == (SearchView { current: c, ..old(self)@ })
                &&& final(buffer)@ == old(buffer)@.with_cursor(old(self)@.matches[c].0, false)
            },
    {
        if self.matches.len() == 0 {
            return;
        }
        self.current = (self.current + 1) % self.matches.len();
        let start = self.matches[self.current].start;
        buffer.set_cursor(start, false);
    }

    /// Moves to the previous match (wrapping around) and puts the cursor at
    /// its start.
    pub fn previous(&mut self, buffer: &mut Buffer)
        requires
            old(self).wf(),
            old(buffer).wf(),
        ensures
            final(self).wf(),
            final(buffer).wf(),
            final(self)@ == old(self)@.stepped_previous(),
            old(self)@.matches.len() == 0 ==> final(self)@ == old(self)@ && final(buffer)@ == old(
                buffer,
            )@,
            old(self)@.matches.len() > 0 ==> {
                let c = if old(self)@.current == 0 {
                    old(self)@.matches.len() - 1
                } else {
                    old(self)@.current - 1
                };
                &&& final(self)@ == (SearchView { current: c, ..old(self)@ })
                &&& final(buffer)@ == old(buffer)@.with_cursor(old(self)@.matches[c].0, false)
            },
    {
        if self.matches.len() == 0 {
            return;
        }
        self.current = if self.current == 0 {
            self.matches.len() - 1
        } else {
            self.current - 1
        };
        let start = self.matches[self.current].start;
        buffer.set_cursor(start, false);
    }

    /// Puts the cursor at the start of the current match, if there is one.
    pub fn jump_to_current(&mut self, buffer: &mut Buffer)
        requires
            old(self).wf(),
            old(buffer).wf(),
        ensures
            final(self)@ == old(self)@,
            final(self).wf(),
            final(buffer).wf(),
            old(self)@.matches.len() == 0 ==> final(buffer)@ == old(buffer)@,
            old(self)@.matches.len() > 0 ==> final(buffer)@ == old(buffer)@.with_cursor(
                old(self)@.matches[old(self)@.current].0,
                false,
            ),
    {
        if self.current < self.matches.len() {
            let start = self.matches[self.current].start;
            buffer.set_cursor(start, false);
        }
    }

    /// All matches.
    pub fn visible_matches(&self) -> (r: &[Range<usize>])
        ensures
            r@.map_values(|x: Range<usize>| (x.start as int, x.end as int)) == self@.matches,
    {
        self.matches.as_slice()
    }

    /// The current match, if there are any.
    pub fn current_match(&self) -> (r: Option<&Range<usize>>)
        requires
            self.wf(),
        ensures
            self@.matches.len() == 0 ==> r is None,
            self@.matches.len() > 0 ==> (r matches Some(x) && (x.start as int, x.end as int)
                == self@.matches[self@.current]),
    {
        if self.current < self.matches.len() {
            Some(&self.matches[self.current])
        } else {
            None
        }
    }

    /// The query typed so far.
    pub fn query_text(&self) -> (r: &str)
        ensures
            r@ == self@.query,
    {
        self.query.as_str()
    }

    /// Number of matches.
    pub fn count(&self) -> (n: usize)
        ensures
            n == self@.matches.len(),
    {
        self.matches.len()
    }

    /// One-based index of the current match; 0 without matches.
    pub fn current_index(&self) -> (n: usize)
        requires
            self.wf(),
        ensures
            n == if self@.matches.len() == 0 {
                0
            } else {
                self@.current + 1
            },
            self@.matches.len() > 0 ==> 1 <= n <= self@.matches.len(),
    {
        if self.matches.len() == 0 {
            0
        } else {
            self.current + 1
        }
    }
}

proof fn lemma_first_at_or_after(m: Seq<(int, int)>, cursor: int, i: int)
    requires
        0 <= i <= m.len(),
        forall|k: int| 0 <= k < i ==> m[k].0 < cursor,
        i == m.len() || m[i].0 >= cursor,
    ensures
        position_at_or_after(m, cursor) == if i < m.len() {
            Some(i)
        } else {
            None::<int>
        },
    decreases m.len(),
{
    if m.len() > 0 && i > 0 {
        let d = m.drop_first();
        assert forall|k: int| 0 <= k < i - 1 implies d[k].0 < cursor by {
            assert(d[k] == m[k + 1]);
        }
        if i < m.len() {
            assert(d[i - 1] == m[i]);
        }
        lemma_first_at_or_after(d, cursor, i - 1);
    }
}

} // verus!
