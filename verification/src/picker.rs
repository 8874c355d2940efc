//! The file picker: fuzzy matching of a query against the project's files.

use vstd::prelude::*;
use crate::text::{trim, trimmed, push_char, pop_char};
use crate::paths::{join_path, joined_path};

verus! {

/// The score nucleo's `Pattern::score` gives a file path for a pattern
/// (parsed with smart case matching and smart normalization); `None` when it
/// does not match.
pub uninterp spec fn fuzzy_score(pattern: Seq<char>, haystack: Seq<char>) -> Option<u32>;

/// Scores `haystack` against `pattern` with nucleo; the result is named
/// `fuzzy_score`.
#[verifier::external_body]
fn fuzzy_match(pattern: &str, haystack: &str) -> (r: Option<u32>)
    ensures
        r == fuzzy_score(pattern@, haystack@),
{
    let pattern = nucleo::pattern::Pattern::parse(
        pattern,
        nucleo::pattern::CaseMatching::Smart,
        nucleo::pattern::Normalization::Smart,
    );
    let mut matcher = nucleo::Matcher::new(nucleo::Config::DEFAULT);
    let mut buf = Vec::new();
    pattern.score(nucleo::Utf32Str::new(haystack, &mut buf), &mut matcher)
}

/// Whether `Path::new(a)` orders before `Path::new(b)` (component-wise).
pub uninterp spec fn path_precedes(a: Seq<char>, b: Seq<char>) -> bool;

pub open spec fn string_views(v: Seq<String>) -> Seq<Seq<char>> {
    v.map_values(|s: String| s@)
}

/// Sorts paths with `slice::sort` on `PathBuf`s: the result holds the same
/// paths, none ordered before one that comes earlier.
#[verifier::external_body]
fn sort_paths(files: Vec<String>) -> (r: Vec<String>)
    ensures
        string_views(r@).to_multiset() == string_views(files@).to_multiset(),
        forall|i: int, j: int|
            0 <= i < j < r@.len() ==> !path_precedes(#[trigger] r@[j]@, #[trigger] r@[i]@),
{
    let mut paths: Vec<std::path::PathBuf> = files.into_iter().map(std::path::PathBuf::from).collect();
    paths.sort();
    paths.into_iter().map(|p| p.to_string_lossy().into_owned()).collect()
}

/// Whether a file is listed for query `q`: every file for an empty query,
/// else those the fuzzy matcher scores.
pub open spec fn matches_query(q: Seq<char>, f: Seq<char>) -> bool {
    q.len() == 0 || fuzzy_score(q, f) is Some
}

/// A listed file's score: 0 for an empty query.
pub open spec fn score_of(q: Seq<char>, f: Seq<char>) -> int {
    if q.len() == 0 {
        0
    } else {
        match fuzzy_score(q, f) {
            Some(s) => s as int,
            None => 0,
        }
    }
}

/// File `a` is listed before file `b`: higher score first, then by position
/// in the (sorted) file list.
pub open spec fn ranks_before(files: Seq<Seq<char>>, q: Seq<char>, a: int, b: int) -> bool {
    score_of(q, files[a]) > score_of(q, files[b]) || (score_of(q, files[a]) == score_of(
        q,
        files[b],
    ) && a < b)
}

/// `r` lists, as indices into `files`, exactly the files that match `q`,
/// best score first and in file order among equal scores.
pub open spec fn is_ranking(r: Seq<int>, files: Seq<Seq<char>>, q: Seq<char>) -> bool {
    &&& forall|i: int|
        0 <= i < r.len() ==> 0 <= #[trigger] r[i] < files.len() && matches_query(q, files[r[i]])
    &&& forall|j: int|
        0 <= j < files.len() && matches_query(q, #[trigger] files[j]) ==> r.contains(j)
    &&& forall|i: int, k: int|
        0 <= i < k < r.len() ==> ranks_before(files, q, #[trigger] r[i], #[trigger] r[k])
}

pub struct PickerView {
    pub active: bool,
    pub query: Seq<char>,
    pub cwd: Seq<char>,
    pub files: Seq<Seq<char>>,
    pub filtered: Seq<int>,
    pub selected: int,
}

/// The file picker overlay.
#[derive(Debug)]
pub struct Picker {
    pub active: bool,
    pub query: String,
    cwd: String,
    files: Vec<String>,
    filtered: Vec<usize>,
    selected: usize,
}

impl View for Picker {
    type V = PickerView;

    closed spec fn view(&self) -> PickerView {
        PickerView {
            active: self.active,
            query: self.query@,
            cwd: self.cwd@,
            files: string_views(self.files@),
            filtered: self.filtered@.map_values(|i: usize| i as int),
            selected: self.selected as int,
        }
    }
}

impl PickerView {
    /// The selection kept within the listed files.
    pub open spec fn clamped_selection(self, len: int) -> int {
        if self.selected <= len - 1 {
            self.selected
        } else if len - 1 >= 0 {
            len - 1
        } else {
            0
        }
    }

    /// True when `filtered` lists the files for the trimmed query and the
    /// selection is within the list.
    pub open spec fn refiltered_from(self, old_selected: int) -> bool {
        &&& is_ranking(self.filtered, self.files, trimmed(self.query))
        &&& self.selected == (PickerView { selected: old_selected, ..self }).clamped_selection(
            self.filtered.len() as int,
        )
    }

    /// True when the files are in path order.
    pub open spec fn files_sorted(self) -> bool {
        forall|i: int, j: int|
            0 <= i < j < self.files.len() ==> !path_precedes(
                #[trigger] self.files[j],
                #[trigger] self.files[i],
            )
    }
}

impl Picker {
    /// The picker's invariant: the listed files are those matching the
    /// trimmed query, ranked, and the selection lies within them.
    pub closed spec fn wf(&self) -> bool {
        &&& is_ranking(self@.filtered, self@.files, trimmed(self@.query))
        &&& (self@.filtered.len() == 0 ==> self.selected == 0)
        &&& (self@.filtered.len() > 0 ==> self.selected < self@.filtered.len())
    }

    /// A well-formed picker lists the files matching its trimmed query,
    /// ranked, and its selection is one of the listed rows (the first when
    /// none is listed).
    pub proof fn lemma_wf_ranking(&self)
        requires
            self.wf(),
        ensures
            is_ranking(self@.filtered, self@.files, trimmed(self@.query)),
            self@.filtered.len() == 0 ==> self@.selected == 0,
            self@.filtered.len() > 0 ==> self@.selected < self@.filtered.len(),
    {
    }

    /// Lists the files matching the trimmed query, best first.
    fn refilter(&mut self)
        ensures
            final(self)@ == (PickerView {
                filtered: final(self)@.filtered,
                selected: final(self)@.selected,
                ..old(self)@
            }),
            final(self)@.refiltered_from(old(self)@.selected),
            final(self).wf(),
    {
        let q = trim(self.query.as_str());
        let empty = q.as_str().is_empty();
        let ghost files = self@.files;
        let ghost tq = trimmed(self@.query);
        let mut ranked: Vec<(u32, usize)> = Vec::new();
        let mut idx: usize = 0;
        while idx < self.files.len()
            invariant
                idx <= self.files@.len(),
                files == string_views(self.files@),
                q@ == tq,
                empty == (tq.len() == 0),
                forall|i: int|
                    0 <= i < ranked@.len() ==> {
                        let e = #[trigger] ranked@[i];
                        &&& (e.1 as int) < idx
                        &&& matches_query(tq, files[e.1 as int])
                        &&& e.0 as int == score_of(tq, files[e.1 as int])
                    },
                forall|j: int|
                    0 <= j < idx && matches_query(tq, #[trigger] files[j]) ==> exists|i: int|
                        0 <= i < ranked@.len() && #[trigger] ranked@[i].1 == j,
                forall|i: int, k: int|
                    0 <= i < k < ranked@.len() ==> #[trigger] ranked@[i].0 > #[trigger] ranked@[k].0
                        || (ranked@[i].0 == ranked@[k].0 && ranked@[i].1 < ranked@[k].1),
            decreases self.files@.len() - idx,
        {
            let score = if empty {
                Some(0u32)
            } else {
                fuzzy_match(q.as_str(), self.files[idx].as_str())
            };
            if let Some(sc) = score {
                let mut p: usize = 0;
                while p < ranked.len() && ranked[p].0 >= sc
                    invariant
                        p <= ranked@.len(),
                        forall|i: int| 0 <= i < p ==> #[trigger] ranked@[i].0 >= sc,
                    decreases ranked@.len() - p,
                {
                    p = p + 1;
                }
                let ghost before = ranked@;
                ranked.insert(p, (sc, idx));
                proof {
                    assert forall|i: int, k: int|
                        0 <= i < k < ranked@.len() implies #[trigger] ranked@[i].0 > #[trigger] ranked@[k].0
                        || (ranked@[i].0 == ranked@[k].0 && ranked@[i].1 < ranked@[k].1) by {
                        if i < p && k == p {
                            assert(before[i].0 >= sc);
                        } else if i == p && k > p {
                            assert(before[k - 1].0 <= before[p as int].0);
                            assert(before[p as int].0 < sc);
                        } else if i < p && k > p {
                            assert(ranked@[k] == before[k - 1]);
                        } else if i > p {
                            assert(ranked@[i] == before[i - 1]);
                            assert(ranked@[k] == before[k - 1]);
                        }
                    }
                    assert forall|j: int|
                        0 <= j < idx + 1 && matches_query(tq, #[trigger] files[j]) implies exists|i: int|
                        0 <= i < ranked@.len() && #[trigger] ranked@[i].1 == j by {
                        if j == idx {
                            assert(ranked@[p as int].1 == j);
                        } else {
                            let i0 = choose|i: int| 0 <= i < before.len() && #[trigger] before[i].1 == j;
                            if i0 < p {
                                assert(ranked@[i0].1 == j);
                            } else {
                                assert(ranked@[i0 + 1].1 == j);
                            }
                        }
                    }
                    assert forall|i: int| 0 <= i < ranked@.len() implies {
                        let e = #[trigger] ranked@[i];
                        &&& (e.1 as int) < idx + 1
                        &&& matches_query(tq, files[e.1 as int])
                        &&& e.0 as int == score_of(tq, files[e.1 as int])
                    } by {
                        if i < p {
                            assert(ranked@[i] == before[i]);
                        } else if i > p {
                            assert(ranked@[i] == before[i - 1]);
                        }
                    }
                }
            } else {
                proof {
                    assert(!matches_query(tq, files[idx as int]));
                }
            }
            idx = idx + 1;
        }
        let mut filtered: Vec<usize> = Vec::new();
        let mut i: usize = 0;
        while i < ranked.len()
            invariant
                i <= ranked@.len(),
                filtered@.len() == i,
                forall|k: int| 0 <= k < i ==> #[trigger] filtered@[k] == ranked@[k].1,
            decreases ranked@.len() - i,
        {
            filtered.push(ranked[i].1);
            i = i + 1;
        }
        self.filtered = filtered;
        let n = self.filtered.len();
        if n == 0 {
            self.selected = 0;
        } else if self.selected > n - 1 {
            self.selected = n - 1;
        }
        proof {
            let r = self@.filtered;
            assert forall|i: int, k: int| 0 <= i < k < r.len() implies ranks_before(
                files,
                tq,
                #[trigger] r[i],
                #[trigger] r[k],
            ) by {
                let a = ranked@[i];
                let b = ranked@[k];
                assert(r[i] == a.1 as int);
                assert(r[k] == b.1 as int);
            }
            assert forall|j: int|
                0 <= j < files.len() && matches_query(tq, #[trigger] files[j]) implies r.contains(j) by {
                let i0 = choose|i: int| 0 <= i < ranked@.len() && #[trigger] ranked@[i].1 == j;
                assert(r[i0] == j);
            }
            assert forall|i: int| 0 <= i < r.len() implies 0 <= #[trigger] r[i] < files.len()
                && matches_query(tq, files[r[i]]) by {
                assert(r[i] == ranked@[i].1 as int);
            }
        }
    }

    /// A picker over the files of directory `cwd` (paths relative to it, as
    /// the caller found them); the files are put in path order.
    pub fn new(cwd: String, files: Vec<String>) -> (p: Picker)
        ensures
            p.wf(),
            !p@.active,
            p@.query.len() == 0,
            p@.cwd == cwd@,
            string_views(files@).to_multiset() == p@.files.to_multiset(),
            p@.files_sorted(),
            p@.selected == 0,
    {
        let mut picker = Picker {
            active: false,
            query: String::new(),
            cwd,
            files: sort_paths(files),
            filtered: Vec::new(),
            selected: 0,
        };
        picker.refilter();
        picker
    }

    /// Replaces the file list with a freshly found one, put in path order,
    /// and lists the matches again.
    pub fn set_files(&mut self, files: Vec<String>)
        ensures
            final(self).wf(),
            final(self)@.query == old(self)@.query,
            final(self)@.active == old(self)@.active,
            final(self)@.cwd == old(self)@.cwd,
            string_views(files@).to_multiset() == final(self)@.files.to_multiset(),
            final(self)@.files_sorted(),
            final(self)@.refiltered_from(old(self)@.selected),
    {
        self.files = sort_paths(files);
        self.refilter();
    }

    /// Opens the picker with an empty query and the first entry selected;
    /// `fresh_files`, when given, replaces the file list first.
    pub fn open(&mut self, fresh_files: Option<Vec<String>>)
        ensures
            final(self).wf(),
            final(self)@.active,
            final(self)@.query.len() == 0,
            final(self)@.cwd == old(self)@.cwd,
            final(self)@.selected == 0,
            fresh_files is None ==> final(self)@.files == old(self)@.files,
            fresh_files matches Some(f) ==> string_views(f@).to_multiset()
                == final(self)@.files.to_multiset() && final(self)@.files_sorted(),
            is_ranking(final(self)@.filtered, final(self)@.files, Seq::empty()),
    {
        self.active = true;
        self.query = String::new();
        self.selected = 0;
        if let Some(files) = fresh_files {
            self.set_files(files);
        }
        self.refilter();
        proof {
            assert(trimmed(self@.query) =~= Seq::<char>::empty());
        }
    }

    pub fn close(&mut self)
        ensures
            final(self)@ == (PickerView { active: false, ..old(self)@ }),
            final(self).wf() == old(self).wf(),
    {
        self.active = false;
    }

    /// Adds a character to the query and lists the matches again.
    pub fn push(&mut self, ch: char)
        ensures
            final(self).wf(),
            final(self)@.query == old(self)@.query.push(ch),
            final(self)@.files == old(self)@.files,
            final(self)@.active == old(self)@.active,
            final(self)@.cwd == old(self)@.cwd,
            final(self)@.refiltered_from(old(self)@.selected),
    {
        push_char(&mut self.query, ch);
        self.refilter();
    }

    /// Removes the query's last character and lists the matches again.
    pub fn pop(&mut self)
        ensures
            final(self).wf(),
            final(self)@.query == if old(self)@.query.len() > 0 {
                old(self)@.query.drop_last()
            } else {
                old(self)@.query
            },
            final(self)@.files == old(self)@.files,
            final(self)@.active == old(self)@.active,
            final(self)@.cwd == old(self)@.cwd,
            final(self)@.refiltered_from(old(self)@.selected),
    {
        let _ = pop_char(&mut self.query);
        self.refilter();
    }

    /// Moves the selection by `delta` entries, staying within the list.
    pub fn move_selection(&mut self, delta: isize)
        requires
            old(self).wf(),
        ensures
            final(self).wf(),
            final(self)@ == (PickerView {
                selected: if old(self)@.filtered.len() == 0 {
                    0
                } else {
                    clamp(
                        old(self)@.selected + delta,
                        0,
                        old(self)@.filtered.len() - 1,
                    )
                },
                ..old(self)@
            }),
    {
        let n = self.filtered.len();
        if n == 0 {
            self.selected = 0;
            return;
        }
        let target: i128 = self.selected as i128 + delta as i128;
        self.selected = if target < 0 {
            0
        } else if target > (n - 1) as i128 {
            n - 1
        } else {
            target as usize
        };
    }

    /// Moves the selection by ten entries per step.
    pub fn page(&mut self, delta: isize)
        requires
            old(self).wf(),
            isize::MIN <= delta * 10 <= isize::MAX,
        ensures
            final(self).wf(),
            final(self)@ == (PickerView {
                selected: if old(self)@.filtered.len() == 0 {
                    0
                } else {
                    clamp(
                        old(self)@.selected + delta * 10,
                        0,
                        old(self)@.filtered.len() - 1,
                    )
                },
                ..old(self)@
            }),
    {
        self.move_selection(delta * 10);
    }

    /// The selected file, joined to the working directory.
    pub fn selected_path(&self) -> (r: Option<String>)
        requires
            self.wf(),
        ensures
            self@.filtered.len() == 0 ==> r is None,
            self@.filtered.len() > 0 ==> self@.selected < self@.filtered.len(),
            self@.filtered.len() > 0 ==> (r matches Some(p) && p@ == joined_path(
                self@.cwd,
                self@.files[self@.filtered[self@.selected]],
            )),
    {
        if self.selected < self.filtered.len() {
            let idx = self.filtered[self.selected];
            proof {
                assert(self@.filtered[self.selected as int] == idx as int);
            }
            Some(join_path(self.cwd.as_str(), self.files[idx].as_str()))
        } else {
            None
        }
    }

    /// The typed query (trimmed) as a path under the working directory;
    /// `None` for an empty query.
    pub fn create_path(&self) -> (r: Option<String>)
        ensures
            trimmed(self@.query).len() == 0 ==> r is None,
            trimmed(self@.query).len() > 0 ==> (r matches Some(p) && p@ == joined_path(
                self@.cwd,
                trimmed(self@.query),
            )),
    {
        let q = trim(self.query.as_str());
        if q.as_str().is_empty() {
            None
        } else {
            Some(join_path(self.cwd.as_str(), q.as_str()))
        }
    }

    /// The listed files with their row numbers.
    pub fn results(&self) -> (r: Vec<(usize, String)>)
        requires
            self.wf(),
        ensures
            r@.len() == self@.filtered.len(),
            forall|i: int|
                0 <= i < r@.len() ==> (#[trigger] r@[i]).0 == i && r@[i].1@ == self@.files[self@.filtered[i]],
    {
        let mut out: Vec<(usize, String)> = Vec::new();
        let mut i: usize = 0;
        while i < self.filtered.len()
            invariant
                self.wf(),
                i <= self@.filtered.len(),
                out@.len() == i,
                forall|k: int|
                    0 <= k < i ==> (#[trigger] out@[k]).0 == k && out@[k].1@ == self@.files[self@.filtered[k]],
            decreases self@.filtered.len() - i,
        {
            let idx = self.filtered[i];
            proof {
                assert(self@.filtered[i as int] == idx as int);
            }
            out.push((i, self.files[idx].clone()));
            i = i + 1;
        }
        out
    }

    pub fn selected(&self) -> (n: usize)
        ensures
            n == self@.selected,
            self.wf() ==> (self@.filtered.len() == 0 ==> n == 0),
            self.wf() ==> (self@.filtered.len() > 0 ==> n < self@.filtered.len()),
    {
        self.selected
    }

    /// The query typed so far.
    pub fn query_text(&self) -> (r: &str)
        ensures
            r@ == self@.query,
    {
        self.query.as_str()
    }

    pub fn cwd(&self) -> (r: &str)
        ensures
            r@ == self@.cwd,
    {
        self.cwd.as_str()
    }
}

pub open spec fn clamp(x: int, lo: int, hi: int) -> int {
    if x < lo {
        lo
    } else if x > hi {
        hi
    } else {
        x
    }
}

} // verus!
