//! Code actions offered by the language server, and applying the text edits
//! of a workspace edit to the buffer.

use vstd::prelude::*;
use crate::buffer::{Buffer, BufferView};
use crate::json::{
    JsonValue, JsonData, json_get, json_str, json_u64, json_array, json_object, get, as_str,
    as_u64, as_array, as_object, take_member, clone_json, data_seq, members_data,
    lemma_data_seq_index, lemma_members_data_index,
};
use crate::text::{utf8_len, str_eq};

verus! {

/// A code action: its title, and the workspace edit and command to run.
#[derive(Debug)]
pub struct CodeActionItem {
    pub title: String,
    pub edit: Option<JsonValue>,
    pub command: Option<JsonValue>,
}

/// The action a response item describes: an item whose `command` is a string
/// is a bare command, titled by it; otherwise the item needs a string
/// `title` and may carry an `edit` and a `command`.
pub open spec fn action_from(item: JsonData) -> Option<(Seq<char>, Option<JsonData>, Option<JsonData>)> {
    let command = json_get(item, "command"@);
    if command is Some && json_str(command->0) is Some {
        Some((json_str(command->0)->0, None, Some(item)))
    } else {
        match json_get(item, "title"@) {
            Some(t) => match json_str(t) {
                Some(title) => Some((title, json_get(item, "edit"@), command)),
                None => None,
            },
            None => None,
        }
    }
}

/// The actions described by a list of items, in order, skipping items that
/// describe none.
pub open spec fn actions_from(items: Seq<JsonData>) -> Seq<(Seq<char>, Option<JsonData>, Option<JsonData>)>
    decreases items.len(),
{
    if items.len() == 0 {
        Seq::empty()
    } else {
        match action_from(items.last()) {
            Some(a) => actions_from(items.drop_last()).push(a),
            None => actions_from(items.drop_last()),
        }
    }
}

/// The form of an optional JSON value.
pub open spec fn opt_data(v: Option<JsonValue>) -> Option<JsonData> {
    match v {
        Some(x) => Some(x.data()),
        None => None,
    }
}

/// The mathematical form of a code action.
pub open spec fn item_view(a: CodeActionItem) -> (Seq<char>, Option<JsonData>, Option<JsonData>) {
    (a.title@, opt_data(a.edit), opt_data(a.command))
}

impl CodeActionItem {
    /// The actions in a `textDocument/codeAction` response: none unless it
    /// is an array.
    pub fn from_lsp_response(value: &JsonValue) -> (r: Vec<CodeActionItem>)
        ensures
            r@.map_values(|a: CodeActionItem| item_view(a)) == match json_array(value.data()) {
                Some(items) => actions_from(items),
                None => Seq::empty(),
            },
    {
        let items = match as_array(value) {
            Some(items) => items,
            None => {
                let r: Vec<CodeActionItem> = Vec::new();
                proof {
                    assert(r@.map_values(|a: CodeActionItem| item_view(a)) =~= Seq::<
                        (Seq<char>, Option<JsonData>, Option<JsonData>),
                    >::empty());
                }
                return r;
            },
        };
        let ghost all = data_seq(items@);
        proof {
            lemma_data_seq_index(items@);
            assert(all.take(0) =~= Seq::<JsonData>::empty());
        }
        let mut out: Vec<CodeActionItem> = Vec::new();
        let mut i: usize = 0;
        while i < items.len()
            invariant
                all == data_seq(items@),
                all.len() == items@.len(),
                forall|j: int| 0 <= j < items@.len() ==> #[trigger] all[j] == items@[j].data(),
                i <= items@.len(),
                out@.map_values(|a: CodeActionItem| item_view(a)) == actions_from(all.take(i as int)),
            decreases items@.len() - i,
        {
            let ghost before = out@.map_values(|a: CodeActionItem| item_view(a));
            proof {
                assert(all.take(i + 1).drop_last() =~= all.take(i as int));
                assert(all.take(i + 1).last() == items@[i as int].data());
            }
            let item = clone_json(&items[i]);
            match Self::from_item(item) {
                Some(a) => {
                    out.push(a);
                    proof {
                        assert(out@.map_values(|a: CodeActionItem| item_view(a)) =~= before.push(
                            item_view(a),
                        ));
                    }
                },
                None => {},
            }
            i = i + 1;
        }
        proof {
            assert(all.take(items@.len() as int) =~= all);
        }
        out
    }

    fn from_item(item: JsonValue) -> (r: Option<CodeActionItem>)
        ensures
            match r {
                Some(a) => action_from(item.data()) == Some(item_view(a)),
                None => action_from(item.data()) is None,
            },
    {
        let command_title: Option<String> = match get(&item, "command") {
            Some(c) => match as_str(c) {
                Some(s) => Some(s.to_owned()),
                None => None,
            },
            None => None,
        };
        if let Some(title) = command_title {
            return Some(CodeActionItem { title, edit: None, command: Some(item) });
        }
        let title: String = match get(&item, "title") {
            Some(t) => match as_str(t) {
                Some(s) => s.to_owned(),
                None => return None,
            },
            None => return None,
        };
        match item {
            JsonValue::Object(entries) => {
                let mut entries = entries;
                let edit = take_member(&mut entries, "edit");
                proof {
                    reveal_strlit("edit");
                    reveal_strlit("command");
                    assert("command"@.len() != "edit"@.len());
                }
                let command = take_member(&mut entries, "command");
                Some(CodeActionItem { title, edit, command })
            },
            _ => None,
        }
    }
}

/// A text edit resolved to byte offsets of the buffer.
pub struct PendingView {
    pub start: int,
    pub end: int,
    pub text: Seq<char>,
}

struct PendingEdit {
    start: usize,
    end: usize,
    new_text: String,
}

pub open spec fn get_u64(v: JsonData, key: Seq<char>) -> Option<u64> {
    match json_get(v, key) {
        Some(x) => json_u64(x),
        None => None,
    }
}

/// A text edit (`{range: {start, end}, newText}`) resolved against the
/// buffer; `None` when a position is missing or not an unsigned integer.  A
/// missing `newText` inserts nothing.
pub open spec fn parse_text_edit(b: BufferView, item: JsonData) -> Option<PendingView> {
    match json_get(item, "range"@) {
        None => None,
        Some(range) => match (json_get(range, "start"@), json_get(range, "end"@)) {
            (Some(s), Some(e)) => match (
                get_u64(s, "line"@),
                get_u64(s, "character"@),
                get_u64(e, "line"@),
                get_u64(e, "character"@),
            ) {
                (Some(sl), Some(sc), Some(el), Some(ec)) => Some(
                    PendingView {
                        start: b.offset_for_line_col(sl as usize as int, sc as usize as int),
                        end: b.offset_for_line_col(el as usize as int, ec as usize as int),
                        text: match json_get(item, "newText"@) {
                            Some(t) => match json_str(t) {
                                Some(x) => x,
                                None => Seq::empty(),
                            },
                            None => Seq::empty(),
                        },
                    },
                ),
                _ => None,
            },
            _ => None,
        },
    }
}

pub open spec fn parse_text_edits(b: BufferView, items: Seq<JsonData>) -> Seq<PendingView>
    decreases items.len(),
{
    if items.len() == 0 {
        Seq::empty()
    } else {
        match parse_text_edit(b, items.last()) {
            Some(p) => parse_text_edits(b, items.drop_last()).push(p),
            None => parse_text_edits(b, items.drop_last()),
        }
    }
}

/// The text edits of a list value (none for other values).
pub open spec fn text_edits_of(b: BufferView, v: JsonData) -> Seq<PendingView> {
    match json_array(v) {
        Some(items) => parse_text_edits(b, items),
        None => Seq::empty(),
    }
}

/// The text edits of a `changes` map that are for the document `uri`, entry
/// by entry; entries for other documents are left out.
pub open spec fn changes_edits(b: BufferView, uri: Seq<char>, entries: Seq<(Seq<char>, JsonData)>) -> Seq<PendingView>
    decreases entries.len(),
{
    if entries.len() == 0 {
        Seq::empty()
    } else {
        changes_edits(b, uri, entries.drop_last()) + if entries.last().0 == uri {
            text_edits_of(b, entries.last().1)
        } else {
            Seq::empty()
        }
    }
}

/// Whether a `documentChanges` entry is for the document `uri`: its
/// `textDocument.uri` is that text.
pub open spec fn change_targets(change: JsonData, uri: Seq<char>) -> bool {
    match json_get(change, "textDocument"@) {
        Some(td) => match json_get(td, "uri"@) {
            Some(u) => json_str(u) == Some(uri),
            None => false,
        },
        None => false,
    }
}

/// The text edits of `documentChanges` for the document `uri`, change by
/// change; changes for other documents are left out.
pub open spec fn document_changes_edits(b: BufferView, uri: Seq<char>, changes: Seq<JsonData>) -> Seq<PendingView>
    decreases changes.len(),
{
    if changes.len() == 0 {
        Seq::empty()
    } else {
        document_changes_edits(b, uri, changes.drop_last()) + if change_targets(changes.last(), uri) {
            match json_get(changes.last(), "edits"@) {
                Some(te) => text_edits_of(b, te),
                None => Seq::empty(),
            }
        } else {
            Seq::empty()
        }
    }
}

/// The text edits of a workspace edit for the document `uri` (the open
/// file): those under `changes`, then those under `documentChanges`.
pub open spec fn workspace_edits(b: BufferView, uri: Seq<char>, edit: JsonData) -> Seq<PendingView> {
    let c = match json_get(edit, "changes"@) {
        Some(ch) => match json_object(ch) {
            Some(entries) => changes_edits(b, uri, entries),
            None => Seq::empty(),
        },
        None => Seq::empty(),
    };
    let d = match json_get(edit, "documentChanges"@) {
        Some(dc) => match json_array(dc) {
            Some(changes) => document_changes_edits(b, uri, changes),
            None => Seq::empty(),
        },
        None => Seq::empty(),
    };
    c + d
}

/// Whether a `documentChanges` entry is for the document `uri`.
fn targets(change: &JsonValue, uri: &str) -> (r: bool)
    ensures
        r == change_targets(change.data(), uri@),
{
    match get(change, "textDocument") {
        Some(td) => match get(td, "uri") {
            Some(u) => match as_str(u) {
                Some(t) => str_eq(t, uri),
                None => false,
            },
            None => false,
        },
        None => false,
    }
}

/// Edit `a` is applied before edit `b`: later start first, then later end,
/// then in the order they were given.
pub open spec fn applied_before(c: Seq<PendingView>, a: int, b: int) -> bool {
    c[a].start > c[b].start || (c[a].start == c[b].start && (c[a].end > c[b].end || (c[a].end
        == c[b].end && a < b)))
}

/// `perm` orders all the edits for application.
pub open spec fn is_edit_order(perm: Seq<int>, c: Seq<PendingView>) -> bool {
    &&& perm.len() == c.len()
    &&& forall|i: int| 0 <= i < perm.len() ==> 0 <= #[trigger] perm[i] < c.len()
    &&& forall|i: int, k: int|
        0 <= i < k < perm.len() ==> applied_before(c, #[trigger] perm[i], #[trigger] perm[k])
}

/// The buffer after applying the edits in the given order, each recorded for
/// undo; an edit whose text would not fit in memory is skipped.
pub open spec fn apply_edits(v: BufferView, c: Seq<PendingView>, perm: Seq<int>) -> BufferView
    decreases perm.len(),
{
    if perm.len() == 0 {
        v
    } else {
        let w = apply_edits(v, c, perm.drop_last());
        let e = c[perm.last()];
        if utf8_len(e.text) == 0 || w.fits(utf8_len(e.text) as int) {
            w.with_replaced_range(e.start, e.end, e.text)
        } else {
            w
        }
    }
}

spec fn pending_views(s: Seq<PendingEdit>) -> Seq<PendingView> {
    s.map_values(|e: PendingEdit| PendingView { start: e.start as int, end: e.end as int, text: e.new_text@ })
}

/// Resolves the text edits in `text_edits` against the buffer and appends
/// them to `out`.
fn collect_text_edits(buffer: &Buffer, text_edits: &JsonValue, out: &mut Vec<PendingEdit>)
    requires
        buffer.wf(),
    ensures
        pending_views(final(out)@) == pending_views(old(out)@) + text_edits_of(buffer@, text_edits.data()),
{
    let ghost o = pending_views(out@);
    let items = match as_array(text_edits) {
        Some(items) => items,
        None => {
            proof {
                assert(o + Seq::<PendingView>::empty() =~= o);
            }
            return;
        },
    };
    let ghost all = data_seq(items@);
    let mut i: usize = 0;
    proof {
        lemma_data_seq_index(items@);
        assert(all.take(0) =~= Seq::<JsonData>::empty());
        assert(o + Seq::<PendingView>::empty() =~= o);
    }
    while i < items.len()
        invariant
            buffer.wf(),
            all == data_seq(items@),
            all.len() == items@.len(),
            forall|j: int| 0 <= j < items@.len() ==> #[trigger] all[j] == items@[j].data(),
            i <= items@.len(),
            pending_views(out@) == o + parse_text_edits(buffer@, all.take(i as int)),
        decreases items@.len() - i,
    {
        let ghost prev = pending_views(out@);
        proof {
            assert(all.take(i + 1).drop_last() =~= all.take(i as int));
            assert(all.take(i + 1).last() == items@[i as int].data());
        }
        let item = &items[i];
        i = i + 1;
        let range = match get(item, "range") {
            Some(r) => r,
            None => continue,
        };
        let start = match get(range, "start") {
            Some(r) => r,
            None => continue,
        };
        let end = match get(range, "end") {
            Some(r) => r,
            None => continue,
        };
        let start_line = match get(start, "line") {
            Some(v) => match as_u64(v) {
                Some(x) => x,
                None => continue,
            },
            None => continue,
        };
        let start_col = match get(start, "character") {
            Some(v) => match as_u64(v) {
                Some(x) => x,
                None => continue,
            },
            None => continue,
        };
        let end_line = match get(end, "line") {
            Some(v) => match as_u64(v) {
                Some(x) => x,
                None => continue,
            },
            None => continue,
        };
        let end_col = match get(end, "character") {
            Some(v) => match as_u64(v) {
                Some(x) => x,
                None => continue,
            },
            None => continue,
        };
        let new_text: String = match get(item, "newText") {
            Some(t) => match as_str(t) {
                Some(s) => s.to_owned(),
                None => String::new(),
            },
            None => String::new(),
        };
        let e = PendingEdit {
            start: buffer.offset_for_line_col(start_line as usize, start_col as usize),
            end: buffer.offset_for_line_col(end_line as usize, end_col as usize),
            new_text,
        };
        out.push(e);
        proof {
            assert(pending_views(out@) =~= prev.push(
                PendingView { start: e.start as int, end: e.end as int, text: e.new_text@ },
            ));
        }
    }
    proof {
        assert(all.take(all.len() as int) =~= all);
    }
}

/// Applies the text edits of a workspace edit that are for the open file,
/// whose URI is `uri`, to the buffer, from the last position to the first
/// (an edit that would not fit in memory is skipped), and returns how many
/// there were; edits for other files are left out.
pub fn apply_workspace_edit(buffer: &mut Buffer, uri: &str, edit: &JsonValue) -> (count: usize)
    requires
        old(buffer).wf(),
    ensures
        final(buffer).wf(),
        count == workspace_edits(old(buffer)@, uri@, edit.data()).len(),
        exists|perm: Seq<int>|
            is_edit_order(perm, workspace_edits(old(buffer)@, uri@, edit.data())) && final(buffer)@
                == apply_edits(old(buffer)@, workspace_edits(old(buffer)@, uri@, edit.data()), perm),
{
    let ghost b0 = buffer@;
    let mut edits: Vec<PendingEdit> = Vec::new();
    proof {
        assert(pending_views(edits@) =~= Seq::<PendingView>::empty());
    }
    if let Some(changes) = get(edit, "changes") {
        if let Some(entries) = as_object(changes) {
            let ghost m = members_data(entries@);
            let mut i: usize = 0;
            proof {
                lemma_members_data_index(entries@);
                assert(m.take(0) =~= Seq::<(Seq<char>, JsonData)>::empty());
            }
            while i < entries.len()
                invariant
                    buffer.wf(),
                    buffer@ == b0,
                    m == members_data(entries@),
                    m.len() == entries@.len(),
                    forall|j: int|
                        0 <= j < entries@.len() ==> #[trigger] m[j] == (
                            entries@[j].0@,
                            entries@[j].1.data(),
                        ),
                    i <= entries@.len(),
                    pending_views(edits@) == changes_edits(b0, uri@, m.take(i as int)),
                decreases entries@.len() - i,
            {
                proof {
                    assert(m.take(i + 1).drop_last() =~= m.take(i as int));
                    assert(m.take(i + 1).last() == m[i as int]);
                }
                let ghost prev = pending_views(edits@);
                if str_eq(entries[i].0.as_str(), uri) {
                    collect_text_edits(buffer, &entries[i].1, &mut edits);
                } else {
                    proof {
                        assert(prev + Seq::<PendingView>::empty() =~= prev);
                    }
                }
                i = i + 1;
            }
            proof {
                assert(m.take(m.len() as int) =~= m);
            }
        }
    }
    let ghost first = pending_views(edits@);
    if let Some(dc) = get(edit, "documentChanges") {
        if let Some(changes) = as_array(dc) {
            let ghost cd = data_seq(changes@);
            let mut i: usize = 0;
            proof {
                lemma_data_seq_index(changes@);
                assert(cd.take(0) =~= Seq::<JsonData>::empty());
                assert(first + Seq::<PendingView>::empty() =~= first);
            }
            while i < changes.len()
                invariant
                    buffer.wf(),
                    buffer@ == b0,
                    cd == data_seq(changes@),
                    cd.len() == changes@.len(),
                    forall|j: int| 0 <= j < changes@.len() ==> #[trigger] cd[j] == changes@[j].data(),
                    i <= changes@.len(),
                    pending_views(edits@) == first + document_changes_edits(b0, uri@, cd.take(i as int)),
                decreases changes@.len() - i,
            {
                proof {
                    assert(cd.take(i + 1).drop_last() =~= cd.take(i as int));
                    assert(cd.take(i + 1).last() == changes@[i as int].data());
                }
                let ghost prev = pending_views(edits@);
                if targets(&changes[i], uri) {
                    match get(&changes[i], "edits") {
                        Some(te) => collect_text_edits(buffer, te, &mut edits),
                        None => {},
                    }
                }
                i = i + 1;
                proof {
                    let d = document_changes_edits(b0, uri@, cd.take(i - 1));
                    let extra = if change_targets(cd[i - 1], uri@) {
                        match json_get(cd[i - 1], "edits"@) {
                            Some(te) => text_edits_of(b0, te),
                            None => Seq::<PendingView>::empty(),
                        }
                    } else {
                        Seq::<PendingView>::empty()
                    };
                    assert(pending_views(edits@) =~= prev + extra);
                    assert(first + (d + extra) =~= (first + d) + extra);
                }
            }
            proof {
                assert(cd.take(cd.len() as int) =~= cd);
            }
        }
    }
    let ghost c = pending_views(edits@);
    proof {
        assert(c =~= workspace_edits(b0, uri@, edit.data()));
    }
    let n = edits.len();
    let mut order: Vec<usize> = Vec::new();
    let mut idx: usize = 0;
    while idx < n
        invariant
            n == edits@.len(),
            c == pending_views(edits@),
            idx <= n,
            order@.len() == idx,
            forall|i: int| 0 <= i < order@.len() ==> (#[trigger] order@[i]) < idx,
            forall|i: int, k: int|
                0 <= i < k < order@.len() ==> applied_before(
                    c,
                    #[trigger] order@[i] as int,
                    #[trigger] order@[k] as int,
                ),
        decreases n - idx,
    {
        let s = edits[idx].start;
        let e = edits[idx].end;
        let mut p: usize = 0;
        while p < order.len() && !(s > edits[order[p]].start || (s == edits[order[p]].start
            && e > edits[order[p]].end))
            invariant
                n == edits@.len(),
                c == pending_views(edits@),
                idx < n,
                s == c[idx as int].start,
                e == c[idx as int].end,
                p <= order@.len(),
                forall|i: int| 0 <= i < order@.len() ==> (#[trigger] order@[i]) < idx,
                forall|i: int| 0 <= i < p ==> applied_before(c, #[trigger] order@[i] as int, idx as int),
            decreases order@.len() - p,
        {
            proof {
                let o = order@[p as int] as int;
                assert(c[o].start == edits@[o].start);
                assert(c[o].end == edits@[o].end);
            }
            p = p + 1;
        }
        let ghost before = order@;
        proof {
            if p < before.len() {
                let o = before[p as int] as int;
                assert(c[o].start == edits@[o].start);
                assert(c[o].end == edits@[o].end);
                assert(applied_before(c, idx as int, o));
            }
        }
        order.insert(p, idx);
        proof {
            assert forall|i: int, k: int| 0 <= i < k < order@.len() implies applied_before(
                c,
                #[trigger] order@[i] as int,
                #[trigger] order@[k] as int,
            ) by {
                if i < p && k == p {
                } else if i == p && k > p {
                    let o = before[p as int] as int;
                    assert(applied_before(c, idx as int, o));
                    assert(order@[k] == before[k - 1]);
                    if k - 1 > p {
                        assert(applied_before(c, o, before[k - 1] as int));
                    }
                } else if i < p && k > p {
                    assert(order@[k] == before[k - 1]);
                } else if i > p {
                    assert(order@[i] == before[i - 1]);
                    assert(order@[k] == before[k - 1]);
                }
            }
            assert forall|i: int| 0 <= i < order@.len() implies (#[trigger] order@[i]) < idx + 1 by {
                if i < p {
                    assert(order@[i] == before[i]);
                } else if i > p {
                    assert(order@[i] == before[i - 1]);
                }
            }
        }
        idx = idx + 1;
    }
    let ghost perm = order@.map_values(|x: usize| x as int);
    let mut i: usize = 0;
    proof {
        assert(perm.take(0) =~= Seq::<int>::empty());
    }
    while i < n
        invariant
            n == edits@.len(),
            c == pending_views(edits@),
            order@.len() == n,
            perm == order@.map_values(|x: usize| x as int),
            forall|j: int| 0 <= j < order@.len() ==> (#[trigger] order@[j]) < n,
            i <= n,
            buffer.wf(),
            buffer@ == apply_edits(b0, c, perm.take(i as int)),
        decreases n - i,
    {
        let k = order[i];
        let len = buffer.len();
        let tl = crate::text::utf8_len_of(edits[k].new_text.as_str());
        proof {
            assert(perm.take(i + 1).drop_last() =~= perm.take(i as int));
            assert(perm.take(i + 1).last() == k as int);
            assert(c[k as int].start == edits@[k as int].start);
            assert(c[k as int].end == edits@[k as int].end);
            assert(c[k as int].text == edits@[k as int].new_text@);
        }
        if tl == 0 || (len <= usize::MAX - crate::buffer::INITIAL_GAP && tl <= usize::MAX
            - crate::buffer::INITIAL_GAP - len) {
            buffer.replace_range(edits[k].start..edits[k].end, edits[k].new_text.as_str());
        }
        i = i + 1;
    }
    proof {
        assert(perm.take(n as int) =~= perm);
        assert(is_edit_order(perm, c));
    }
    n
}

/// A text edit's positions: the pending edit starts at the buffer offset of
/// the range's start line and character and ends at the offset of the
/// range's end line and character, so an edit whose range ends on a later
/// line than it starts takes out the text across the line breaks.  A
/// one-item list of such an edit yields exactly that pending edit.
pub proof fn law_text_edit_positions(
    b: BufferView,
    item: JsonData,
    range: JsonData,
    s: JsonData,
    e: JsonData,
    sl: u64,
    sc: u64,
    el: u64,
    ec: u64,
)
    requires
        json_get(item, "range"@) == Some(range),
        json_get(range, "start"@) == Some(s),
        json_get(range, "end"@) == Some(e),
        json_get(s, "line"@) == Some(JsonData::PosInt(sl)),
        json_get(s, "character"@) == Some(JsonData::PosInt(sc)),
        json_get(e, "line"@) == Some(JsonData::PosInt(el)),
        json_get(e, "character"@) == Some(JsonData::PosInt(ec)),
        sl <= usize::MAX,
        sc <= usize::MAX,
        el <= usize::MAX,
        ec <= usize::MAX,
    ensures
        parse_text_edit(b, item) matches Some(p) && p.start == b.offset_for_line_col(sl as int, sc as int)
            && p.end == b.offset_for_line_col(el as int, ec as int),
        text_edits_of(b, JsonData::Array(seq![item])).len() == 1,
        text_edits_of(b, JsonData::Array(seq![item]))[0].start == b.offset_for_line_col(sl as int, sc as int),
        text_edits_of(b, JsonData::Array(seq![item]))[0].end == b.offset_for_line_col(el as int, ec as int),
{
    let items = seq![item];
    assert(items.drop_last() =~= Seq::<JsonData>::empty());
    assert(items.last() == item);
    assert(json_array(JsonData::Array(items)) == Some(items));
    let p = parse_text_edit(b, item)->0;
    assert(parse_text_edits(b, items.drop_last()) == Seq::<PendingView>::empty());
    assert(parse_text_edits(b, items) == Seq::<PendingView>::empty().push(p));
}

} // verus!
