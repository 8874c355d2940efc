//! The language-server session: the requests and notifications the editor
//! sends, the responses it waits for, and what it makes of the server's
//! messages.  Messages travel as JSON values; moving them over the wire is
//! the caller's part.

pub mod diagnostics;
pub mod actions;
pub mod transport;

use vstd::prelude::*;
use std::collections::HashMap;
use crate::buffer::{Buffer, BufferView};
use crate::config::{LspServerConfig, ServerView};
use crate::json::{
    JsonValue, JsonData, JsonNumber, json_get, json_str, json_i64, json_array, get, as_str,
    as_i64, as_array, clone_json, data_seq, members_data, lemma_data_seq_index,
    lemma_members_data_index, int_data, jstr, jint, member, json_text, json_bytes,
};
use crate::lsp::actions::{CodeActionItem, item_view, actions_from};
use crate::lsp::diagnostics::{DiagnosticEntry, DiagRange, DiagView, Position, published_diagnostics, diagnostics_of};
use crate::text::{chars_of, push_char, push_str, lossy_decode, string_from_utf8_lossy};

verus! {

broadcast use vstd::std_specs::hash::group_hash_axioms;

/// What a sent request was.
#[derive(Clone, Copy, Debug, PartialEq, Eq, Structural)]
pub enum PendingRequest {
    Initialize,
    CodeActions,
    ExecuteCommand,
}

/// What the editor learns from the server.
#[derive(Debug)]
pub enum LspEvent {
    /// The diagnostics a `textDocument/publishDiagnostics` notification
    /// publishes.
    Diagnostics(Vec<DiagnosticEntry>),
    CodeActions(Vec<CodeActionItem>),
    Status(String),
}

/// The mathematical form of an event.
pub enum EventView {
    Diagnostics(Seq<DiagView>),
    CodeActions(Seq<(Seq<char>, Option<JsonData>, Option<JsonData>)>),
    Status(Seq<char>),
}

pub open spec fn event_view(e: LspEvent) -> EventView {
    match e {
        LspEvent::Diagnostics(ds) => EventView::Diagnostics(crate::lsp::diagnostics::views(ds@)),
        LspEvent::CodeActions(items) => EventView::CodeActions(
            items@.map_values(|a: CodeActionItem| item_view(a)),
        ),
        LspEvent::Status(s) => EventView::Status(s@),
    }
}

pub open spec fn event_views(es: Seq<LspEvent>) -> Seq<EventView> {
    es.map_values(|e: LspEvent| event_view(e))
}

/// A message from the server.
#[derive(Debug)]
pub struct ServerMessage {
    pub value: JsonValue,
}

/// The mathematical form of a server message.
pub struct MessageView {
    pub value: JsonData,
}

pub open spec fn message_view(m: ServerMessage) -> MessageView {
    MessageView { value: m.value.data() }
}

/// The characters of a decimal integer, as `str::parse::<i64>` reads them:
/// an optional sign, then one or more ASCII digits, the value within range.
pub open spec fn parsed_i64(s: Seq<char>) -> Option<i64> {
    let neg = s.len() > 0 && s[0] == '-';
    let ds = if s.len() > 0 && (s[0] == '-' || s[0] == '+') {
        s.drop_first()
    } else {
        s
    };
    if ds.len() == 0 || !all_digits(ds) {
        None
    } else {
        let v = if neg {
            -digits_value(ds)
        } else {
            digits_value(ds)
        };
        if i64::MIN <= v <= i64::MAX {
            Some(v as i64)
        } else {
            None
        }
    }
}

pub open spec fn all_digits(ds: Seq<char>) -> bool {
    forall|i: int| 0 <= i < ds.len() ==> '0' <= #[trigger] ds[i] <= '9'
}

pub open spec fn digits_value(ds: Seq<char>) -> int
    decreases ds.len(),
{
    if ds.len() == 0 {
        0
    } else {
        digits_value(ds.drop_last()) * 10 + (ds.last() as int - 48)
    }
}

/// A run of digits is worth at least any of its prefixes.
proof fn lemma_digits_value_prefix(ds: Seq<char>, k: int)
    requires
        all_digits(ds),
        0 <= k <= ds.len(),
    ensures
        digits_value(ds) >= digits_value(ds.take(k)),
        digits_value(ds) >= 0,
    decreases ds.len(),
{
    if ds.len() > 0 {
        let dl = ds.drop_last();
        assert(all_digits(dl));
        assert('0' <= ds[ds.len() - 1] <= '9');
        if k < ds.len() {
            assert(ds.take(k) =~= dl.take(k));
            lemma_digits_value_prefix(dl, k);
        } else {
            assert(ds.take(k) =~= ds);
            lemma_digits_value_prefix(dl, 0);
        }
    } else {
        assert(ds.take(k) =~= ds);
    }
}

/// The value of an ASCII digit.
fn digit_value(c: char) -> (r: Option<u128>)
    ensures
        match r {
            Some(d) => '0' <= c <= '9' && d == c as int - 48,
            None => !('0' <= c <= '9'),
        },
{
    match c {
        '0' => Some(0),
        '1' => Some(1),
        '2' => Some(2),
        '3' => Some(3),
        '4' => Some(4),
        '5' => Some(5),
        '6' => Some(6),
        '7' => Some(7),
        '8' => Some(8),
        '9' => Some(9),
        _ => None,
    }
}

/// The value of the characters of `cs` from `from` on, when they are all
/// ASCII digits and their value is at most `bound`.
pub(crate) fn digits_upto(cs: &Vec<char>, from: usize, bound: u64) -> (r: Option<u64>)
    requires
        from <= cs@.len(),
    ensures
        match r {
            Some(v) => all_digits(cs@.skip(from as int)) && v == digits_value(cs@.skip(from as int))
                && v <= bound,
            None => !all_digits(cs@.skip(from as int)) || digits_value(cs@.skip(from as int)) > bound,
        },
{
    let ghost ds = cs@.skip(from as int);
    let mut acc: u128 = 0;
    let mut i: usize = from;
    proof {
        assert(ds.take(0) =~= Seq::<char>::empty());
    }
    while i < cs.len()
        invariant
            from <= i <= cs@.len(),
            ds == cs@.skip(from as int),
            all_digits(ds.take(i - from)),
            acc == digits_value(ds.take(i - from)),
            acc <= bound,
        decreases cs@.len() - i,
    {
        let c = cs[i];
        assert(ds[i - from] == c);
        let d = match digit_value(c) {
            Some(d) => d,
            None => {
                return None;
            },
        };
        let next = acc * 10 + d;
        proof {
            assert(ds.take(i + 1 - from).drop_last() =~= ds.take(i - from));
            assert(ds.take(i + 1 - from).last() == c);
            assert(all_digits(ds.take(i + 1 - from)));
        }
        if next > bound as u128 {
            proof {
                if all_digits(ds) {
                    lemma_digits_value_prefix(ds, i + 1 - from);
                }
            }
            return None;
        }
        acc = next;
        i = i + 1;
    }
    proof {
        assert(ds.take(i - from) =~= ds);
    }
    Some(acc as u64)
}

/// Parses a decimal integer as `str::parse::<i64>` does: an optional `+` or
/// `-`, then one or more ASCII digits, the value in range.
fn parse_i64(s: &str) -> (r: Option<i64>)
    ensures
        r == parsed_i64(s@),
{
    let cs = chars_of(s);
    let neg = cs.len() > 0 && cs[0] == '-';
    let from: usize = if cs.len() > 0 && (cs[0] == '-' || cs[0] == '+') {
        1
    } else {
        0
    };
    proof {
        assert(cs@.skip(0) =~= cs@);
        assert(cs@.skip(1) =~= cs@.drop_first());
    }
    if from == cs.len() {
        return None;
    }
    let bound: u64 = if neg {
        0x8000_0000_0000_0000
    } else {
        0x7FFF_FFFF_FFFF_FFFF
    };
    match digits_upto(&cs, from, bound) {
        Some(v) => if neg {
            if v == 0x8000_0000_0000_0000 {
                Some(i64::MIN)
            } else {
                Some(-(v as i64))
            }
        } else {
            Some(v as i64)
        },
        None => None,
    }
}

/// A message id: an integer, or a string holding one.
pub open spec fn id_of(v: JsonData) -> Option<i64> {
    match json_i64(v) {
        Some(i) => Some(i),
        None => match json_str(v) {
            Some(s) => parsed_i64(s),
            None => None,
        },
    }
}

fn json_id(value: &JsonValue) -> (r: Option<i64>)
    ensures
        r == id_of(value.data()),
{
    match as_i64(value) {
        Some(i) => Some(i),
        None => match as_str(value) {
            Some(s) => parse_i64(s),
            None => None,
        },
    }
}

/// `s` with each space written `%20`.
pub open spec fn escape_spaces(s: Seq<char>) -> Seq<char>
    decreases s.len(),
{
    if s.len() == 0 {
        Seq::empty()
    } else {
        escape_spaces(s.drop_last()) + if s.last() == ' ' {
            seq!['%', '2', '0']
        } else {
            seq![s.last()]
        }
    }
}

/// The `file:` URI of an absolute path (`file:///` before a path that does
/// not start with a slash).
pub open spec fn file_uri_text(path: Seq<char>) -> Seq<char> {
    let e = escape_spaces(path);
    if path.len() > 0 && path[0] == '/' {
        seq!['f', 'i', 'l', 'e', ':', '/', '/'] + e
    } else {
        seq!['f', 'i', 'l', 'e', ':', '/', '/', '/'] + e
    }
}

/// The `file:` URI of a path, as the language server expects it; the path
/// is the canonical one where it could be resolved.
pub fn file_uri(path: &str) -> (r: String)
    ensures
        r@ == file_uri_text(path@),
{
    let cs = chars_of(path);
    let mut escaped = String::new();
    let mut i: usize = 0;
    proof {
        assert(cs@.take(0) =~= Seq::<char>::empty());
    }
    while i < cs.len()
        invariant
            cs@ == path@,
            i <= cs@.len(),
            escaped@ == escape_spaces(cs@.take(i as int)),
        decreases cs@.len() - i,
    {
        proof {
            assert(cs@.take(i + 1).drop_last() =~= cs@.take(i as int));
        }
        if cs[i] == ' ' {
            push_char(&mut escaped, '%');
            push_char(&mut escaped, '2');
            push_char(&mut escaped, '0');
            proof {
                assert(escape_spaces(cs@.take(i + 1)) =~= escaped@);
            }
        } else {
            push_char(&mut escaped, cs[i]);
            proof {
                assert(escape_spaces(cs@.take(i + 1)) =~= escaped@);
            }
        }
        i = i + 1;
    }
    proof {
        assert(cs@.take(cs@.len() as int) =~= cs@);
    }
    let mut out = String::new();
    push_char(&mut out, 'f');
    push_char(&mut out, 'i');
    push_char(&mut out, 'l');
    push_char(&mut out, 'e');
    push_char(&mut out, ':');
    push_char(&mut out, '/');
    push_char(&mut out, '/');
    if !(cs.len() > 0 && cs[0] == '/') {
        push_char(&mut out, '/');
    }
    push_str(&mut out, escaped.as_str());
    proof {
        if path@.len() > 0 && path@[0] == '/' {
            assert(out@ =~= file_uri_text(path@));
        } else {
            assert(out@ =~= file_uri_text(path@));
        }
    }
    out
}

/// A request: `jsonrpc`, `id`, `method` and `params`.
pub open spec fn request_data(id: i64, method: Seq<char>, params: JsonData) -> JsonData {
    JsonData::Object(
        seq![
            ("jsonrpc"@, JsonData::Str("2.0"@)),
            ("id"@, int_data(id)),
            ("method"@, JsonData::Str(method)),
            ("params"@, params),
        ],
    )
}

/// A notification: `jsonrpc`, `method` and `params`.
pub open spec fn notification_data(method: Seq<char>, params: JsonData) -> JsonData {
    JsonData::Object(
        seq![
            ("jsonrpc"@, JsonData::Str("2.0"@)),
            ("method"@, JsonData::Str(method)),
            ("params"@, params),
        ],
    )
}

/// A response: `jsonrpc`, `id` and `result`.
pub open spec fn response_data(id: i64, result: JsonData) -> JsonData {
    JsonData::Object(
        seq![("jsonrpc"@, JsonData::Str("2.0"@)), ("id"@, int_data(id)), ("result"@, result)],
    )
}

/// An array of strings.
pub open spec fn str_array(ss: Seq<Seq<char>>) -> JsonData {
    JsonData::Array(ss.map_values(|s: Seq<char>| JsonData::Str(s)))
}

/// The client capabilities sent with `initialize`.
pub open spec fn capabilities_data() -> JsonData {
    JsonData::Object(
        seq![
            (
                "textDocument"@,
                JsonData::Object(
                    seq![
                        (
                            "publishDiagnostics"@,
                            JsonData::Object(seq![("relatedInformation"@, JsonData::Bool(true))]),
                        ),
                        (
                            "codeAction"@,
                            JsonData::Object(
                                seq![
                                    ("dynamicRegistration"@, JsonData::Bool(false)),
                                    (
                                        "codeActionLiteralSupport"@,
                                        JsonData::Object(
                                            seq![
                                                (
                                                    "codeActionKind"@,
                                                    JsonData::Object(
                                                        seq![
                                                            (
                                                                "valueSet"@,
                                                                str_array(offered_kinds()),
                                                            ),
                                                        ],
                                                    ),
                                                ),
                                            ],
                                        ),
                                    ),
                                ],
                            ),
                        ),
                        (
                            "synchronization"@,
                            JsonData::Object(
                                seq![
                                    ("didSave"@, JsonData::Bool(true)),
                                    ("willSave"@, JsonData::Bool(false)),
                                    ("willSaveWaitUntil"@, JsonData::Bool(false)),
                                ],
                            ),
                        ),
                    ],
                ),
            ),
            (
                "workspace"@,
                JsonData::Object(
                    seq![
                        ("applyEdit"@, JsonData::Bool(true)),
                        ("configuration"@, JsonData::Bool(true)),
                        (
                            "workspaceEdit"@,
                            JsonData::Object(seq![("documentChanges"@, JsonData::Bool(true))]),
                        ),
                    ],
                ),
            ),
        ],
    )
}

/// The code-action kinds the client understands.
pub open spec fn offered_kinds() -> Seq<Seq<char>> {
    seq![
        ""@,
        "quickfix"@,
        "refactor"@,
        "refactor.extract"@,
        "refactor.inline"@,
        "refactor.rewrite"@,
        "source"@,
        "source.fixAll"@,
    ]
}

/// The code-action kinds asked for at the cursor.
pub open spec fn requested_kinds() -> Seq<Seq<char>> {
    seq![
        "quickfix"@,
        "source.fixAll"@,
        "refactor"@,
        "refactor.extract"@,
        "refactor.inline"@,
        "refactor.rewrite"@,
    ]
}

/// The parameters of `initialize`.
pub open spec fn initialize_params(process_id: u32, root_uri: Seq<char>) -> JsonData {
    JsonData::Object(
        seq![
            ("processId"@, JsonData::PosInt(process_id as u64)),
            ("rootUri"@, JsonData::Str(root_uri)),
            ("capabilities"@, capabilities_data()),
            ("workspaceFolders"@, JsonData::Null),
        ],
    )
}

/// A position as the protocol writes it.
pub open spec fn position_data(line: u32, character: u32) -> JsonData {
    JsonData::Object(
        seq![
            ("line"@, JsonData::PosInt(line as u64)),
            ("character"@, JsonData::PosInt(character as u64)),
        ],
    )
}

/// A range as the protocol writes it.
pub open spec fn range_data(r: DiagRange) -> JsonData {
    JsonData::Object(
        seq![
            ("start"@, position_data(r.start.line, r.start.character)),
            ("end"@, position_data(r.end.line, r.end.character)),
        ],
    )
}

/// The parameters of `textDocument/codeAction`.
pub open spec fn code_action_params(uri: Seq<char>, range: JsonData, diagnostics: Seq<JsonData>) -> JsonData {
    JsonData::Object(
        seq![
            ("textDocument"@, JsonData::Object(seq![("uri"@, JsonData::Str(uri))])),
            ("range"@, range),
            (
                "context"@,
                JsonData::Object(
                    seq![
                        ("diagnostics"@, JsonData::Array(diagnostics)),
                        ("only"@, str_array(requested_kinds())),
                    ],
                ),
            ),
        ],
    )
}

/// The range code actions are asked for: that of the first diagnostic, else
/// the cursor's position, its line and column cut to 32 bits.
pub open spec fn code_action_range(b: BufferView, diagnostics: Seq<DiagView>) -> JsonData {
    if diagnostics.len() > 0 {
        range_data(diagnostics[0].range)
    } else {
        let p = position_data(b.line_of_cursor() as u32, b.col_of_cursor() as u32);
        JsonData::Object(seq![("start"@, p), ("end"@, p)])
    }
}

/// The command a code action's `command` member names, if it is a string.
pub open spec fn command_name(command: JsonData) -> Option<Seq<char>> {
    match json_get(command, "command"@) {
        Some(c) => json_str(c),
        None => None,
    }
}

/// The arguments of a command: its `arguments` member, else an empty list.
pub open spec fn arguments_of(command: JsonData) -> JsonData {
    match json_get(command, "arguments"@) {
        Some(a) => a,
        None => JsonData::Array(Seq::empty()),
    }
}

/// The parameters of `workspace/executeCommand`.
pub open spec fn execute_params(name: Seq<char>, arguments: JsonData) -> JsonData {
    JsonData::Object(seq![("command"@, JsonData::Str(name)), ("arguments"@, arguments)])
}

/// The parameters of `textDocument/didChange`: the whole text.
pub open spec fn did_change_params(uri: Seq<char>, b: BufferView) -> JsonData {
    JsonData::Object(
        seq![
            (
                "textDocument"@,
                JsonData::Object(
                    seq![("uri"@, JsonData::Str(uri)), ("version"@, int_data(b.version as i64))],
                ),
            ),
            (
                "contentChanges"@,
                JsonData::Array(seq![JsonData::Object(seq![("text"@, JsonData::Str(b.text()))])]),
            ),
        ],
    )
}

/// Whether a code action's command value names a command.
pub fn names_command(command: &JsonValue) -> (r: bool)
    ensures
        r == command_name(command.data()) is Some,
{
    match get(command, "command") {
        Some(c) => as_str(c).is_some(),
        None => false,
    }
}

/// The mathematical form of a session.
pub struct ClientView {
    pub config: ServerView,
    pub uri: Seq<char>,
    pub root_uri: Seq<char>,
    pub next_id: i64,
    pub pending: Map<i64, PendingRequest>,
    pub initialized: bool,
    pub opened: bool,
    /// Messages to send, oldest first.
    pub outgoing: Seq<JsonData>,
}

/// A session with a language server.
#[derive(Debug)]
pub struct LspClient {
    config: LspServerConfig,
    uri: String,
    root_uri: String,
    next_id: i64,
    pending: HashMap<i64, PendingRequest>,
    initialized: bool,
    opened: bool,
    outgoing: Vec<JsonValue>,
}

impl View for LspClient {
    type V = ClientView;

    closed spec fn view(&self) -> ClientView {
        ClientView {
            config: self.config@,
            uri: self.uri@,
            root_uri: self.root_uri@,
            next_id: self.next_id,
            pending: self.pending@,
            initialized: self.initialized,
            opened: self.opened,
            outgoing: data_seq(self.outgoing@),
        }
    }
}

impl ClientView {
    /// After sending a request with the next id.
    pub open spec fn sent_request(self, method: Seq<char>, params: JsonData) -> ClientView {
        ClientView {
            next_id: (self.next_id + 1) as i64,
            outgoing: self.outgoing.push(request_data(self.next_id, method, params)),
            ..self
        }
    }

    /// After sending a request with the next id and awaiting its response.
    pub open spec fn requested(self, method: Seq<char>, params: JsonData, kind: PendingRequest) -> ClientView {
        ClientView {
            pending: self.pending.insert(self.next_id, kind),
            ..self.sent_request(method, params)
        }
    }

    /// After sending a notification.
    pub open spec fn sent_notification(self, method: Seq<char>, params: JsonData) -> ClientView {
        ClientView { outgoing: self.outgoing.push(notification_data(method, params)), ..self }
    }

    /// After sending a response.
    pub open spec fn sent_response(self, id: i64, result: JsonData) -> ClientView {
        ClientView { outgoing: self.outgoing.push(response_data(id, result)), ..self }
    }

    /// True when the document has been announced to an initialized server.
    pub open spec fn ready(self) -> bool {
        self.initialized && self.opened
    }

    /// After announcing the document.
    pub open spec fn after_did_open(self, b: BufferView) -> ClientView {
        ClientView {
            opened: true,
            ..self.sent_notification(
                "textDocument/didOpen"@,
                JsonData::Object(
                    seq![
                        (
                            "textDocument"@,
                            JsonData::Object(
                                seq![
                                    ("uri"@, JsonData::Str(self.uri)),
                                    ("languageId"@, JsonData::Str(self.config.language_id)),
                                    ("version"@, int_data(b.version as i64)),
                                    ("text"@, JsonData::Str(b.text())),
                                ],
                            ),
                        ),
                    ],
                ),
            )
        }
    }

    /// After sending the whole text as changed, once the document is
    /// announced.
    pub open spec fn after_did_change(self, b: BufferView) -> ClientView {
        if self.ready() {
            self.sent_notification("textDocument/didChange"@, did_change_params(self.uri, b))
        } else {
            self
        }
    }

    /// After asking for code actions, once the document is announced.
    pub open spec fn after_code_action_request(self, b: BufferView, diagnostics: Seq<DiagView>) -> ClientView {
        if self.ready() {
            self.requested(
                "textDocument/codeAction"@,
                code_action_params(
                    self.uri,
                    code_action_range(b, diagnostics),
                    diagnostics.map_values(|d: DiagView| d.raw),
                ),
                PendingRequest::CodeActions,
            )
        } else {
            self
        }
    }

    /// After asking to run the command a code action names, if it names one.
    pub open spec fn after_execute(self, command: JsonData) -> ClientView {
        match command_name(command) {
            Some(name) => self.requested(
                "workspace/executeCommand"@,
                execute_params(name, arguments_of(command)),
                PendingRequest::ExecuteCommand,
            ),
            None => self,
        }
    }

    /// The session and events after a server request (a message with a
    /// method and an id): every request is answered.
    pub open spec fn after_server_request(self, id: i64, method: Seq<char>, params: Option<JsonData>) -> (ClientView, Seq<EventView>) {
        if method == "workspace/configuration"@ {
            let count = match params {
                Some(p) => match json_get(p, "items"@) {
                    Some(items) => match json_array(items) {
                        Some(a) => a.len(),
                        None => 0,
                    },
                    None => 0,
                },
                None => 0,
            };
            (
                self.sent_response(id, JsonData::Array(Seq::new(count, |i: int| JsonData::Null))),
                Seq::empty(),
            )
        } else if method == "workspace/applyEdit"@ {
            (
                self.sent_response(
                    id,
                    JsonData::Object(
                        seq![
                            ("applied"@, JsonData::Bool(false)),
                            (
                                "failureReason"@,
                                JsonData::Str("medit applies edits from selected code actions only"@),
                            ),
                        ],
                    ),
                ),
                seq![EventView::Status("LSP requested workspace/applyEdit; not applied"@)],
            )
        } else {
            (self.sent_response(id, JsonData::Null), Seq::empty())
        }
    }

    /// The session and events after one message from the server.
    pub open spec fn after_message(self, m: MessageView, b: BufferView) -> (ClientView, Seq<EventView>) {
        let v = m.value;
        let id = match json_get(v, "id"@) {
            Some(i) => id_of(i),
            None => None,
        };
        let method_name = match json_get(v, "method"@) {
            Some(mv) => json_str(mv),
            None => None,
        };
        match method_name {
            Some(method) => {
                if id is Some {
                    self.after_server_request(id->0, method, json_get(v, "params"@))
                } else if method == "textDocument/publishDiagnostics"@ {
                    match json_get(v, "params"@) {
                        Some(p) => match published_diagnostics(p) {
                            Some(ds) => (self, seq![EventView::Diagnostics(ds)]),
                            None => (self, Seq::empty()),
                        },
                        None => (self, Seq::empty()),
                    }
                } else if method == "window/showMessage"@ || method == "window/logMessage"@ {
                    let text = match json_get(v, "params"@) {
                        Some(p) => match json_get(p, "message"@) {
                            Some(t) => json_str(t),
                            None => None,
                        },
                        None => None,
                    };
                    match text {
                        Some(t) => (self, seq![EventView::Status("LSP: "@ + t)]),
                        None => (self, Seq::empty()),
                    }
                } else {
                    (self, Seq::empty())
                }
            },
            None => {
                if id is None || !self.pending.contains_key(id->0) {
                    (self, Seq::empty())
                } else {
                    let kind = self.pending[id->0];
                    let s = ClientView { pending: self.pending.remove(id->0), ..self };
                    if json_get(v, "error"@) is Some {
                        let text = lossy_decode(json_text(json_get(v, "error"@)->0));
                        (s, seq![EventView::Status("LSP error: "@ + text)])
                    } else {
                        let result = match json_get(v, "result"@) {
                            Some(r) => r,
                            None => JsonData::Null,
                        };
                        match kind {
                            PendingRequest::Initialize => (
                                ClientView { initialized: true, ..s }.sent_notification(
                                    "initialized"@,
                                    JsonData::Object(Seq::empty()),
                                ).after_did_open(b),
                                seq![EventView::Status("LSP attached ("@ + self.config.command + ")"@)],
                            ),
                            PendingRequest::CodeActions => (
                                s,
                                seq![
                                    EventView::CodeActions(
                                        match json_array(result) {
                                            Some(items) => actions_from(items),
                                            None => Seq::empty(),
                                        },
                                    ),
                                ],
                            ),
                            PendingRequest::ExecuteCommand => (
                                s,
                                seq![EventView::Status("LSP command executed"@)],
                            ),
                        }
                    }
                }
            },
        }
    }

    /// The session and events after a batch of messages, in order.
    pub open spec fn after_messages(self, ms: Seq<MessageView>, b: BufferView) -> (ClientView, Seq<EventView>)
        decreases ms.len(),
    {
        if ms.len() == 0 {
            (self, Seq::empty())
        } else {
            let (s, es) = self.after_messages(ms.drop_last(), b);
            let (t, fs) = s.after_message(ms.last(), b);
            (t, es + fs)
        }
    }
}

/// An object value with the given members.
fn object(members: Vec<(String, JsonValue)>) -> (r: JsonValue)
    ensures
        r.data() == JsonData::Object(members_data(members@)),
{
    JsonValue::Object(members)
}

/// An array value with the given items.
fn array(items: Vec<JsonValue>) -> (r: JsonValue)
    ensures
        r.data() == JsonData::Array(data_seq(items@)),
{
    JsonValue::Array(items)
}

fn jbool(b: bool) -> (r: JsonValue)
    ensures
        r.data() == JsonData::Bool(b),
{
    JsonValue::Bool(b)
}

fn position_value(line: u32, character: u32) -> (r: JsonValue)
    ensures
        r.data() == position_data(line, character),
{
    let v = vec![
        member("line", JsonValue::Number(JsonNumber::PosInt(line as u64))),
        member("character", JsonValue::Number(JsonNumber::PosInt(character as u64))),
    ];
    proof {
        lemma_members_data_index(v@);
        assert(members_data(v@) =~= seq![
            ("line"@, JsonData::PosInt(line as u64)),
            ("character"@, JsonData::PosInt(character as u64)),
        ]);
    }
    object(v)
}

fn range_value(r: DiagRange) -> (v: JsonValue)
    ensures
        v.data() == range_data(r),
{
    let s = position_value(r.start.line, r.start.character);
    let e = position_value(r.end.line, r.end.character);
    let ghost sd = s.data();
    let ghost ed = e.data();
    let m = vec![member("start", s), member("end", e)];
    proof {
        lemma_members_data_index(m@);
        assert(members_data(m@) =~= seq![("start"@, sd), ("end"@, ed)]);
    }
    object(m)
}

fn kinds_value(kinds: &[&str]) -> (r: JsonValue)
    ensures
        r.data() == str_array(kinds@.map_values(|k: &str| k@)),
{
    let mut items: Vec<JsonValue> = Vec::new();
    let mut i: usize = 0;
    while i < kinds.len()
        invariant
            i <= kinds@.len(),
            items@.len() == i,
            forall|j: int| 0 <= j < i ==> (#[trigger] items@[j]).data() == JsonData::Str(kinds@[j]@),
        decreases kinds@.len() - i,
    {
        items.push(jstr(kinds[i]));
        i = i + 1;
    }
    proof {
        lemma_data_seq_index(items@);
        assert(data_seq(items@) =~= kinds@.map_values(|k: &str| k@).map_values(
            |s: Seq<char>| JsonData::Str(s),
        ));
    }
    array(items)
}

fn capabilities() -> (r: JsonValue)
    ensures
        r.data() == capabilities_data(),
{
    let related = vec![member("relatedInformation", jbool(true))];
    proof {
        lemma_members_data_index(related@);
        assert(members_data(related@) =~= seq![("relatedInformation"@, JsonData::Bool(true))]);
    }
    let publish = object(related);
    let kinds_list: [&str; 8] = [
        "",
        "quickfix",
        "refactor",
        "refactor.extract",
        "refactor.inline",
        "refactor.rewrite",
        "source",
        "source.fixAll",
    ];
    let kinds = kinds_value(&kinds_list);
    proof {
        assert(kinds_list@.map_values(|k: &str| k@) =~= offered_kinds());
    }
    let value_set = vec![member("valueSet", kinds)];
    proof {
        lemma_members_data_index(value_set@);
        assert(members_data(value_set@) =~= seq![("valueSet"@, str_array(offered_kinds()))]);
    }
    let kind = object(value_set);
    let ghost kind_d = kind.data();
    let literal = vec![member("codeActionKind", kind)];
    proof {
        lemma_members_data_index(literal@);
        assert(members_data(literal@) =~= seq![("codeActionKind"@, kind_d)]);
    }
    let literal_support = object(literal);
    let ghost ls_d = literal_support.data();
    let ca = vec![
        member("dynamicRegistration", jbool(false)),
        member("codeActionLiteralSupport", literal_support),
    ];
    proof {
        lemma_members_data_index(ca@);
        assert(members_data(ca@) =~= seq![
            ("dynamicRegistration"@, JsonData::Bool(false)),
            ("codeActionLiteralSupport"@, ls_d),
        ]);
    }
    let code_action = object(ca);
    let sy = vec![
        member("didSave", jbool(true)),
        member("willSave", jbool(false)),
        member("willSaveWaitUntil", jbool(false)),
    ];
    proof {
        lemma_members_data_index(sy@);
        assert(members_data(sy@) =~= seq![
            ("didSave"@, JsonData::Bool(true)),
            ("willSave"@, JsonData::Bool(false)),
            ("willSaveWaitUntil"@, JsonData::Bool(false)),
        ]);
    }
    let sync = object(sy);
    let ghost pd = publish.data();
    let ghost cd = code_action.data();
    let ghost sd = sync.data();
    let td = vec![
        member("publishDiagnostics", publish),
        member("codeAction", code_action),
        member("synchronization", sync),
    ];
    proof {
        lemma_members_data_index(td@);
        assert(members_data(td@) =~= seq![
            ("publishDiagnostics"@, pd),
            ("codeAction"@, cd),
            ("synchronization"@, sd),
        ]);
    }
    let text_document = object(td);
    let we = vec![member("documentChanges", jbool(true))];
    proof {
        lemma_members_data_index(we@);
        assert(members_data(we@) =~= seq![("documentChanges"@, JsonData::Bool(true))]);
    }
    let workspace_edit = object(we);
    let ghost wed = workspace_edit.data();
    let ws = vec![
        member("applyEdit", jbool(true)),
        member("configuration", jbool(true)),
        member("workspaceEdit", workspace_edit),
    ];
    proof {
        lemma_members_data_index(ws@);
        assert(members_data(ws@) =~= seq![
            ("applyEdit"@, JsonData::Bool(true)),
            ("configuration"@, JsonData::Bool(true)),
            ("workspaceEdit"@, wed),
        ]);
    }
    let workspace = object(ws);
    let ghost tdd = text_document.data();
    let ghost wsd = workspace.data();
    let caps = vec![member("textDocument", text_document), member("workspace", workspace)];
    proof {
        lemma_members_data_index(caps@);
        assert(members_data(caps@) =~= seq![("textDocument"@, tdd), ("workspace"@, wsd)]);
    }
    object(caps)
}

/// Every request the server sends is answered: exactly one message goes
/// out, a response carrying the request's id.
pub proof fn law_server_requests_answered(c: ClientView, id: i64, method: Seq<char>, params: Option<JsonData>)
    ensures
        ({
            let after = c.after_server_request(id, method, params).0;
            &&& after.outgoing.len() == c.outgoing.len() + 1
            &&& after.outgoing.take(c.outgoing.len() as int) == c.outgoing
            &&& exists|result: JsonData| after.outgoing.last() == #[trigger] response_data(id, result)
            &&& after.pending == c.pending
            &&& after.next_id == c.next_id
        }),
{
    let after = c.after_server_request(id, method, params).0;
    assert(after.outgoing.take(c.outgoing.len() as int) =~= c.outgoing);
}

/// A response is acted on once: the request it answers is no longer
/// awaited, so the same response again changes nothing and says nothing.
pub proof fn law_response_handled_once(c: ClientView, m: MessageView, b: BufferView)
    requires
        json_get(m.value, "method"@) is None,
    ensures
        ({
            let (c1, e1) = c.after_message(m, b);
            c1.after_message(m, b) == (c1, Seq::<EventView>::empty())
        }),
{
}

impl LspClient {
    /// Starts a session for the document at `document_path` in the project
    /// at `root` (canonical paths where they could be resolved), with the
    /// `initialize` request queued.
    pub fn spawn(config: LspServerConfig, document_path: &str, root: &str, process_id: u32) -> (c: LspClient)
        ensures
            c@ == (ClientView {
                config: config@,
                uri: file_uri_text(document_path@),
                root_uri: file_uri_text(root@),
                next_id: 1,
                pending: Map::empty(),
                initialized: false,
                opened: false,
                outgoing: Seq::empty(),
            }).requested(
                "initialize"@,
                initialize_params(process_id, file_uri_text(root@)),
                PendingRequest::Initialize,
            ),
    {
        let uri = file_uri(document_path);
        let root_uri = file_uri(root);
        let mut this = LspClient {
            config,
            uri,
            root_uri,
            next_id: 1,
            pending: HashMap::new(),
            initialized: false,
            opened: false,
            outgoing: Vec::new(),
        };
        proof {
            assert(data_seq(this.outgoing@) =~= Seq::<JsonData>::empty());
            assert(this.pending@ =~= Map::<i64, PendingRequest>::empty());
        }
        this.initialize(process_id);
        this
    }

    /// The URI of the session's document.
    pub fn uri(&self) -> (r: &str)
        ensures
            r@ == self@.uri,
    {
        self.uri.as_str()
    }

    /// Takes the messages waiting to be sent, oldest first.
    pub fn take_outgoing(&mut self) -> (r: Vec<JsonValue>)
        ensures
            data_seq(r@) == old(self)@.outgoing,
            final(self)@ == (ClientView { outgoing: Seq::empty(), ..old(self)@ }),
    {
        let mut r: Vec<JsonValue> = Vec::new();
        std::mem::swap(&mut r, &mut self.outgoing);
        proof {
            assert(data_seq(self.outgoing@) =~= Seq::<JsonData>::empty());
        }
        r
    }

    /// The protocol's language id of the document.
    pub fn language_id(&self) -> (r: &str)
        ensures
            r@ == self@.config.language_id,
    {
        self.config.language_id.as_str()
    }

    /// True when the document has been announced to an initialized server.
    pub fn is_ready(&self) -> (r: bool)
        ensures
            r == self@.ready(),
    {
        self.initialized && self.opened
    }

    /// True when another request id is available.
    pub fn has_ids_left(&self) -> (r: bool)
        ensures
            r == (self@.next_id < i64::MAX),
    {
        self.next_id < i64::MAX
    }

    fn send_request(&mut self, method: &str, params: JsonValue) -> (id: i64)
        requires
            old(self)@.next_id < i64::MAX,
        ensures
            id == old(self)@.next_id,
            final(self)@ == old(self)@.sent_request(method@, params.data()),
    {
        let id = self.next_id;
        self.next_id = self.next_id + 1;
        let ghost pd = params.data();
        let m = vec![
            member("jsonrpc", jstr("2.0")),
            member("id", jint(id)),
            member("method", jstr(method)),
            member("params", params),
        ];
        proof {
            lemma_members_data_index(m@);
            assert(members_data(m@) =~= seq![
                ("jsonrpc"@, JsonData::Str("2.0"@)),
                ("id"@, int_data(id)),
                ("method"@, JsonData::Str(method@)),
                ("params"@, pd),
            ]);
        }
        let msg = object(m);
        let ghost before = self.outgoing@;
        self.outgoing.push(msg);
        proof {
            lemma_data_seq_index(before);
            lemma_data_seq_index(self.outgoing@);
            assert(data_seq(self.outgoing@) =~= data_seq(before).push(msg.data()));
        }
        id
    }

    fn send_notification(&mut self, method: &str, params: JsonValue)
        ensures
            final(self)@ == old(self)@.sent_notification(method@, params.data()),
    {
        let ghost pd = params.data();
        let m = vec![
            member("jsonrpc", jstr("2.0")),
            member("method", jstr(method)),
            member("params", params),
        ];
        proof {
            lemma_members_data_index(m@);
            assert(members_data(m@) =~= seq![
                ("jsonrpc"@, JsonData::Str("2.0"@)),
                ("method"@, JsonData::Str(method@)),
                ("params"@, pd),
            ]);
        }
        let msg = object(m);
        let ghost before = self.outgoing@;
        self.outgoing.push(msg);
        proof {
            lemma_data_seq_index(before);
            lemma_data_seq_index(self.outgoing@);
            assert(data_seq(self.outgoing@) =~= data_seq(before).push(msg.data()));
        }
    }

    fn send_response(&mut self, id: i64, result: JsonValue)
        ensures
            final(self)@ == old(self)@.sent_response(id, result.data()),
    {
        let ghost rd = result.data();
        let m = vec![
            member("jsonrpc", jstr("2.0")),
            member("id", jint(id)),
            member("result", result),
        ];
        proof {
            lemma_members_data_index(m@);
            assert(members_data(m@) =~= seq![
                ("jsonrpc"@, JsonData::Str("2.0"@)),
                ("id"@, int_data(id)),
                ("result"@, rd),
            ]);
        }
        let msg = object(m);
        let ghost before = self.outgoing@;
        self.outgoing.push(msg);
        proof {
            lemma_data_seq_index(before);
            lemma_data_seq_index(self.outgoing@);
            assert(data_seq(self.outgoing@) =~= data_seq(before).push(msg.data()));
        }
    }

    fn initialize(&mut self, process_id: u32)
        requires
            old(self)@.next_id < i64::MAX,
        ensures
            final(self)@ == old(self)@.requested(
                "initialize"@,
                initialize_params(process_id, old(self)@.root_uri),
                PendingRequest::Initialize,
            ),
    {
        let caps = capabilities();
        let ghost cd = caps.data();
        let m = vec![
            member("processId", JsonValue::Number(JsonNumber::PosInt(process_id as u64))),
            member("rootUri", jstr(self.root_uri.as_str())),
            member("capabilities", caps),
            member("workspaceFolders", JsonValue::Null),
        ];
        proof {
            lemma_members_data_index(m@);
            assert(members_data(m@) =~= seq![
                ("processId"@, JsonData::PosInt(process_id as u64)),
                ("rootUri"@, JsonData::Str(self.root_uri@)),
                ("capabilities"@, cd),
                ("workspaceFolders"@, JsonData::Null),
            ]);
        }
        let id = self.send_request("initialize", object(m));
        self.pending.insert(id, PendingRequest::Initialize);
    }

    fn did_open(&mut self, buffer: &Buffer)
        requires
            buffer.wf(),
        ensures
            final(self)@ == old(self)@.after_did_open(buffer@),
    {
        let text = buffer.text();
        let m = vec![
            member("uri", jstr(self.uri.as_str())),
            member("languageId", jstr(self.config.language_id.as_str())),
            member("version", jint(buffer.version() as i64)),
            member("text", jstr(text.as_str())),
        ];
        proof {
            lemma_members_data_index(m@);
            assert(members_data(m@) =~= seq![
                ("uri"@, JsonData::Str(self.uri@)),
                ("languageId"@, JsonData::Str(self.config.language_id@)),
                ("version"@, int_data(buffer@.version as i64)),
                ("text"@, JsonData::Str(buffer@.text())),
            ]);
        }
        let doc = object(m);
        let ghost dd = doc.data();
        let p = vec![member("textDocument", doc)];
        proof {
            lemma_members_data_index(p@);
            assert(members_data(p@) =~= seq![("textDocument"@, dd)]);
        }
        self.send_notification("textDocument/didOpen", object(p));
        self.opened = true;
    }

    /// Sends the whole text as changed, once the document is announced.
    pub fn notify_did_change(&mut self, buffer: &Buffer)
        requires
            buffer.wf(),
        ensures
            final(self)@ == old(self)@.after_did_change(buffer@),
    {
        if !self.initialized || !self.opened {
            return;
        }
        let m = vec![
            member("uri", jstr(self.uri.as_str())),
            member("version", jint(buffer.version() as i64)),
        ];
        proof {
            lemma_members_data_index(m@);
            assert(members_data(m@) =~= seq![
                ("uri"@, JsonData::Str(self.uri@)),
                ("version"@, int_data(buffer@.version as i64)),
            ]);
        }
        let doc = object(m);
        let text = buffer.text();
        let c = vec![member("text", jstr(text.as_str()))];
        proof {
            lemma_members_data_index(c@);
            assert(members_data(c@) =~= seq![("text"@, JsonData::Str(buffer@.text()))]);
        }
        let change = object(c);
        let ghost chd = change.data();
        let changes = vec![change];
        proof {
            lemma_data_seq_index(changes@);
            assert(data_seq(changes@) =~= seq![chd]);
        }
        let ghost dd = doc.data();
        let arr = array(changes);
        let ghost ad = arr.data();
        let p = vec![member("textDocument", doc), member("contentChanges", arr)];
        proof {
            lemma_members_data_index(p@);
            assert(members_data(p@) =~= seq![("textDocument"@, dd), ("contentChanges"@, ad)]);
        }
        self.send_notification("textDocument/didChange", object(p));
    }

    /// Asks for the code actions at the cursor (at the first diagnostic's
    /// range, when there is one), once the document is announced.
    pub fn request_code_actions(&mut self, buffer: &Buffer, diagnostics: Vec<DiagnosticEntry>)
        requires
            buffer.wf(),
            old(self)@.ready() ==> old(self)@.next_id < i64::MAX,
        ensures
            final(self)@ == old(self)@.after_code_action_request(
                buffer@,
                diagnostics@.map_values(|d: DiagnosticEntry| d@),
            ),
    {
        if !self.initialized || !self.opened {
            return;
        }
        let range = if diagnostics.len() > 0 {
            range_value(diagnostics[0].range)
        } else {
            let (line, col) = buffer.line_col();
            let p = position_value(line as u32, col as u32);
            let q = position_value(line as u32, col as u32);
            let ghost pd = p.data();
            let m = vec![member("start", p), member("end", q)];
            proof {
                lemma_members_data_index(m@);
                assert(members_data(m@) =~= seq![("start"@, pd), ("end"@, pd)]);
            }
            object(m)
        };
        let mut raws: Vec<JsonValue> = Vec::new();
        let mut i: usize = 0;
        while i < diagnostics.len()
            invariant
                i <= diagnostics@.len(),
                raws@.len() == i,
                forall|j: int| 0 <= j < i ==> (#[trigger] raws@[j]).data() == diagnostics@[j].raw.data(),
            decreases diagnostics@.len() - i,
        {
            raws.push(clone_json(&diagnostics[i].raw));
            i = i + 1;
        }
        proof {
            lemma_data_seq_index(raws@);
            assert(data_seq(raws@) =~= diagnostics@.map_values(|d: DiagnosticEntry| d@).map_values(
                |d: DiagView| d.raw,
            ));
        }
        let kinds_list: [&str; 6] = [
            "quickfix",
            "source.fixAll",
            "refactor",
            "refactor.extract",
            "refactor.inline",
            "refactor.rewrite",
        ];
        let only = kinds_value(&kinds_list);
        proof {
            assert(kinds_list@.map_values(|k: &str| k@) =~= requested_kinds());
        }
        let diags = array(raws);
        let ghost dd = diags.data();
        let ghost od = only.data();
        let cx = vec![member("diagnostics", diags), member("only", only)];
        proof {
            lemma_members_data_index(cx@);
            assert(members_data(cx@) =~= seq![("diagnostics"@, dd), ("only"@, od)]);
        }
        let context = object(cx);
        let td = vec![member("uri", jstr(self.uri.as_str()))];
        proof {
            lemma_members_data_index(td@);
            assert(members_data(td@) =~= seq![("uri"@, JsonData::Str(self.uri@))]);
        }
        let text_document = object(td);
        let ghost tdd = text_document.data();
        let ghost rd = range.data();
        let ghost cxd = context.data();
        let p = vec![
            member("textDocument", text_document),
            member("range", range),
            member("context", context),
        ];
        proof {
            lemma_members_data_index(p@);
            assert(members_data(p@) =~= seq![("textDocument"@, tdd), ("range"@, rd), ("context"@, cxd)]);
        }
        let id = self.send_request("textDocument/codeAction", object(p));
        self.pending.insert(id, PendingRequest::CodeActions);
    }

    /// Asks the server to run a code action's command, if it names one.
    pub fn execute_command(&mut self, command: &JsonValue)
        requires
            command_name(command.data()) is Some ==> old(self)@.next_id < i64::MAX,
        ensures
            final(self)@ == old(self)@.after_execute(command.data()),
    {
        let name = match get(command, "command") {
            Some(c) => match as_str(c) {
                Some(n) => n,
                None => return,
            },
            None => return,
        };
        let ghost expected = arguments_of(command.data());
        let arguments = match get(command, "arguments") {
            Some(a) => {
                let c = clone_json(a);
                assert(c.data() == expected);
                c
            },
            None => {
                let empty: Vec<JsonValue> = Vec::new();
                proof {
                    assert(data_seq(empty@) =~= Seq::<JsonData>::empty());
                }
                let c = array(empty);
                assert(c.data() == expected);
                c
            },
        };
        let ghost ad = arguments.data();
        let m = vec![member("command", jstr(name)), member("arguments", arguments)];
        proof {
            lemma_members_data_index(m@);
            assert(members_data(m@) =~= seq![("command"@, JsonData::Str(name@)), ("arguments"@, ad)]);
        }
        let id = self.send_request("workspace/executeCommand", object(m));
        self.pending.insert(id, PendingRequest::ExecuteCommand);
        proof {
            assert(command_name(command.data()) == Some(name@));
            assert(seq![("command"@, JsonData::Str(name@)), ("arguments"@, ad)] == seq![
                ("command"@, JsonData::Str(name@)),
                ("arguments"@, expected),
            ]);
            assert(final(self)@ == old(self)@.requested(
                "workspace/executeCommand"@,
                execute_params(name@, expected),
                PendingRequest::ExecuteCommand,
            ));
        }
    }

    fn handle_server_request(
        &mut self,
        id: i64,
        method: &str,
        params: Option<&JsonValue>,
        events: &mut Vec<LspEvent>,
    )
        ensures
            ({
                let (s, es) = old(self)@.after_server_request(
                    id,
                    method@,
                    match params {
                        Some(p) => Some(p.data()),
                        None => None,
                    },
                );
                &&& final(self)@ == s
                &&& event_views(final(events)@) == event_views(old(events)@) + es
            }),
    {
        let ghost e0 = event_views(events@);
        if crate::text::str_eq(method, "workspace/configuration") {
            let count: usize = match params {
                Some(p) => match get(p, "items") {
                    Some(items) => match as_array(items) {
                        Some(a) => {
                            proof {
                                lemma_data_seq_index(a@);
                            }
                            a.len()
                        },
                        None => 0,
                    },
                    None => 0,
                },
                None => 0,
            };
            let mut nulls: Vec<JsonValue> = Vec::new();
            let mut k: usize = 0;
            while k < count
                invariant
                    k <= count,
                    nulls@.len() == k,
                    forall|j: int| 0 <= j < k ==> (#[trigger] nulls@[j]).data() == JsonData::Null,
                decreases count - k,
            {
                nulls.push(JsonValue::Null);
                k = k + 1;
            }
            proof {
                lemma_data_seq_index(nulls@);
                assert(data_seq(nulls@) =~= Seq::new(count as nat, |i: int| JsonData::Null));
                assert(events@ == old(events)@);
                assert(e0 + Seq::<EventView>::empty() =~= e0);
            }
            self.send_response(id, array(nulls));
        } else if crate::text::str_eq(method, "workspace/applyEdit") {
            let m = vec![
                member("applied", jbool(false)),
                member("failureReason", jstr("medit applies edits from selected code actions only")),
            ];
            proof {
                lemma_members_data_index(m@);
                assert(members_data(m@) =~= seq![
                    ("applied"@, JsonData::Bool(false)),
                    ("failureReason"@, JsonData::Str("medit applies edits from selected code actions only"@)),
                ]);
            }
            self.send_response(id, object(m));
            let e = LspEvent::Status("LSP requested workspace/applyEdit; not applied".to_owned());
            events.push(e);
            proof {
                assert(event_views(events@) =~= e0 + seq![event_view(e)]);
            }
        } else {
            self.send_response(id, JsonValue::Null);
            proof {
                assert(e0 + Seq::<EventView>::empty() =~= e0);
            }
        }
    }

    fn handle_message(&mut self, message: &ServerMessage, buffer: &Buffer, events: &mut Vec<LspEvent>)
        requires
            buffer.wf(),
        ensures
            ({
                let (s, es) = old(self)@.after_message(message_view(*message), buffer@);
                &&& final(self)@ == s
                &&& event_views(final(events)@) == event_views(old(events)@) + es
            }),
    {
        let ghost e0 = event_views(events@);
        proof {
            assert(e0 + Seq::<EventView>::empty() =~= e0);
        }
        let v = &message.value;
        let id: Option<i64> = match get(v, "id") {
            Some(i) => json_id(i),
            None => None,
        };
        let method: Option<&str> = match get(v, "method") {
            Some(m) => as_str(m),
            None => None,
        };
        if let Some(meth) = method {
            if let Some(i) = id {
                self.handle_server_request(i, meth, get(v, "params"), events);
                return;
            }
            if crate::text::str_eq(meth, "textDocument/publishDiagnostics") {
                if let Some(p) = get(v, "params") {
                    if let Some(ds) = diagnostics_of(p) {
                        let e = LspEvent::Diagnostics(ds);
                        events.push(e);
                        proof {
                            assert(event_views(events@) =~= e0 + seq![event_view(e)]);
                        }
                    }
                }
            } else if crate::text::str_eq(meth, "window/showMessage") || crate::text::str_eq(
                meth,
                "window/logMessage",
            ) {
                let text: Option<&str> = match get(v, "params") {
                    Some(p) => match get(p, "message") {
                        Some(t) => as_str(t),
                        None => None,
                    },
                    None => None,
                };
                if let Some(t) = text {
                    let mut status = "LSP: ".to_owned();
                    push_str(&mut status, t);
                    let e = LspEvent::Status(status);
                    events.push(e);
                    proof {
                        assert(event_views(events@) =~= e0 + seq![event_view(e)]);
                    }
                }
            }
            return;
        }
        let id = match id {
            Some(i) => i,
            None => return,
        };
        let ghost p0 = self.pending@;
        let kind = match self.pending.remove(&id) {
            Some(k) => k,
            None => {
                proof {
                    assert(self.pending@ =~= p0);
                }
                return;
            },
        };
        if let Some(err) = get(v, "error") {
            let mut status = "LSP error: ".to_owned();
            let text = string_from_utf8_lossy(json_bytes(err).as_slice());
            push_str(&mut status, text.as_str());
            let e = LspEvent::Status(status);
            events.push(e);
            proof {
                assert(event_views(events@) =~= e0 + seq![event_view(e)]);
            }
            return;
        }
        match kind {
            PendingRequest::Initialize => {
                self.initialized = true;
                let empty: Vec<(String, JsonValue)> = Vec::new();
                proof {
                    assert(members_data(empty@) =~= Seq::<(Seq<char>, JsonData)>::empty());
                }
                self.send_notification("initialized", object(empty));
                self.did_open(buffer);
                let mut status = "LSP attached (".to_owned();
                push_str(&mut status, self.config.command.as_str());
                push_str(&mut status, ")");
                let e = LspEvent::Status(status);
                events.push(e);
                proof {
                    assert(event_views(events@) =~= e0 + seq![event_view(e)]);
                }
            },
            PendingRequest::CodeActions => {
                let items = match get(v, "result") {
                    Some(r) => CodeActionItem::from_lsp_response(r),
                    None => CodeActionItem::from_lsp_response(&JsonValue::Null),
                };
                let e = LspEvent::CodeActions(items);
                events.push(e);
                proof {
                    assert(event_views(events@) =~= e0 + seq![event_view(e)]);
                }
            },
            PendingRequest::ExecuteCommand => {
                let e = LspEvent::Status("LSP command executed".to_owned());
                events.push(e);
                proof {
                    assert(event_views(events@) =~= e0 + seq![event_view(e)]);
                }
            },
        }
    }

    /// Handles the server's messages in order: answers its requests, settles
    /// the responses awaited, and returns what the editor should learn.
    pub fn poll(&mut self, messages: Vec<ServerMessage>, buffer: &Buffer) -> (events: Vec<LspEvent>)
        requires
            buffer.wf(),
        ensures
            ({
                let (s, es) = old(self)@.after_messages(
                    messages@.map_values(|m: ServerMessage| message_view(m)),
                    buffer@,
                );
                &&& final(self)@ == s
                &&& event_views(events@) == es
            }),
    {
        let ghost s0 = self@;
        let ghost ms = messages@.map_values(|m: ServerMessage| message_view(m));
        let mut events: Vec<LspEvent> = Vec::new();
        let mut i: usize = 0;
        proof {
            assert(ms.take(0) =~= Seq::<MessageView>::empty());
            assert(event_views(events@) =~= Seq::<EventView>::empty());
        }
        while i < messages.len()
            invariant
                buffer.wf(),
                ms == messages@.map_values(|m: ServerMessage| message_view(m)),
                i <= messages@.len(),
                ({
                    let (s, es) = s0.after_messages(ms.take(i as int), buffer@);
                    &&& self@ == s
                    &&& event_views(events@) == es
                }),
            decreases messages@.len() - i,
        {
            proof {
                assert(ms.take(i + 1).drop_last() =~= ms.take(i as int));
                assert(ms.take(i + 1).last() == message_view(messages@[i as int]));
            }
            self.handle_message(&messages[i], buffer, &mut events);
            i = i + 1;
        }
        proof {
            assert(ms.take(ms.len() as int) =~= ms);
        }
        events
    }
}

} // verus!
