use medit::buffer::Buffer;
use medit::config::LspServerConfig;
use medit::json::{as_array, as_i64, as_str, as_u64, get, jint, jstr, member, parse_json, JsonValue};
use medit::lsp::actions::{apply_workspace_edit, CodeActionItem};
use medit::lsp::diagnostics::{DiagRange, DiagnosticEntry, DiagnosticStore, Position};
use medit::lsp::transport::{encode_message, frame_message, header_line, HeaderLine};
use medit::lsp::{file_uri, LspClient, LspEvent, ServerMessage};

fn obj(members: Vec<(String, JsonValue)>) -> JsonValue {
    JsonValue::Object(members)
}

fn method(v: &JsonValue) -> Option<&str> {
    get(v, "method").and_then(as_str)
}

fn msg(value: JsonValue) -> ServerMessage {
    ServerMessage { value }
}

fn client() -> (LspClient, Buffer) {
    let cfg = LspServerConfig {
        command: "ra".to_string(),
        args: Vec::new(),
        language_id: "rust".to_string(),
    };
    let c = LspClient::spawn(cfg, "/p/a b.rs", "/p", 7);
    let b = Buffer::open("/p/a b.rs".to_string(), "fn main() {}");
    (c, b)
}

fn attached() -> (LspClient, Buffer) {
    let (mut c, b) = client();
    c.take_outgoing();
    let resp = obj(vec![member("jsonrpc", jstr("2.0")), member("id", jint(1)), member("result", obj(vec![]))]);
    c.poll(vec![msg(resp)], &b);
    c.take_outgoing();
    (c, b)
}

#[test]
fn uris_escape_spaces() {
    assert_eq!(file_uri("/p/a b.rs"), "file:///p/a%20b.rs");
    assert_eq!(file_uri("C:/x"), "file:///C:/x");
}

#[test]
fn session_starts_with_initialize() {
    let (mut c, _) = client();
    assert!(!c.is_ready());
    assert_eq!(c.language_id(), "rust");
    let out = c.take_outgoing();
    assert_eq!(out.len(), 1);
    let m = &out[0];
    assert_eq!(method(m), Some("initialize"));
    assert_eq!(get(m, "id").and_then(as_i64), Some(1));
    assert_eq!(get(m, "jsonrpc").and_then(as_str), Some("2.0"));
    let params = get(m, "params").unwrap();
    assert_eq!(get(params, "rootUri").and_then(as_str), Some("file:///p"));
    assert_eq!(get(params, "processId").and_then(as_u64), Some(7));
    assert!(c.take_outgoing().is_empty());
}

#[test]
fn initialize_response_opens_the_document() {
    let (mut c, b) = client();
    c.take_outgoing();
    let resp = obj(vec![member("jsonrpc", jstr("2.0")), member("id", jint(1)), member("result", obj(vec![]))]);
    let events = c.poll(vec![msg(resp)], &b);
    assert!(matches!(events.as_slice(), [LspEvent::Status(s)] if s == "LSP attached (ra)"));
    assert!(c.is_ready());
    let out = c.take_outgoing();
    assert_eq!(out.len(), 2);
    assert_eq!(method(&out[0]), Some("initialized"));
    assert_eq!(method(&out[1]), Some("textDocument/didOpen"));
    let doc = get(get(&out[1], "params").unwrap(), "textDocument").unwrap();
    assert_eq!(get(doc, "uri").and_then(as_str), Some("file:///p/a%20b.rs"));
    assert_eq!(get(doc, "languageId").and_then(as_str), Some("rust"));
    assert_eq!(get(doc, "text").and_then(as_str), Some("fn main() {}"));
}

#[test]
fn changes_are_sent_only_once_open() {
    let (mut c, mut b) = client();
    c.take_outgoing();
    c.notify_did_change(&b);
    assert!(c.take_outgoing().is_empty());
    let (mut c, _) = attached();
    b.insert_str("x");
    c.notify_did_change(&b);
    let out = c.take_outgoing();
    assert_eq!(out.len(), 1);
    assert_eq!(method(&out[0]), Some("textDocument/didChange"));
    let params = get(&out[0], "params").unwrap();
    let changes = get(params, "contentChanges").and_then(as_array).unwrap();
    assert_eq!(get(&changes[0], "text").and_then(as_str), Some("xfn main() {}"));
}

#[test]
fn server_requests_are_answered() {
    let (mut c, b) = attached();
    let req = obj(vec![
        member("id", jint(5)),
        member("method", jstr("workspace/configuration")),
        member("params", obj(vec![member("items", JsonValue::Array(vec![obj(vec![]), obj(vec![])]))])),
    ]);
    let events = c.poll(vec![msg(req)], &b);
    assert!(events.is_empty());
    let out = c.take_outgoing();
    assert_eq!(out.len(), 1);
    assert_eq!(get(&out[0], "id").and_then(as_i64), Some(5));
    let result = get(&out[0], "result").and_then(as_array).unwrap();
    assert_eq!(result.len(), 2);
    assert!(matches!(result[0], JsonValue::Null));

    let apply = obj(vec![member("id", jstr("9")), member("method", jstr("workspace/applyEdit"))]);
    let events = c.poll(vec![msg(apply)], &b);
    assert!(matches!(events.as_slice(), [LspEvent::Status(s)] if s == "LSP requested workspace/applyEdit; not applied"));
    let out = c.take_outgoing();
    assert_eq!(get(&out[0], "id").and_then(as_i64), Some(9));
}

#[test]
fn notifications_become_events() {
    let (mut c, b) = attached();
    let show = obj(vec![
        member("method", jstr("window/showMessage")),
        member("params", obj(vec![member("message", jstr("hi"))])),
    ]);
    let diagnostic = obj(vec![
        member("range", obj(vec![member("start", pos(1, 2)), member("end", pos(1, 4))])),
        member("severity", jint(1)),
        member("message", jstr("bad")),
    ]);
    let diags = obj(vec![
        member("method", jstr("textDocument/publishDiagnostics")),
        member(
            "params",
            obj(vec![
                member("uri", jstr("file:///p/a%20b.rs")),
                member("diagnostics", JsonValue::Array(vec![diagnostic])),
            ]),
        ),
    ]);
    let unreadable = obj(vec![
        member("method", jstr("textDocument/publishDiagnostics")),
        member("params", obj(vec![member("uri", jstr("file:///p/a%20b.rs"))])),
    ]);
    let events = c.poll(vec![msg(show), msg(diags), msg(unreadable)], &b);
    assert_eq!(events.len(), 2);
    assert!(matches!(&events[0], LspEvent::Status(s) if s == "LSP: hi"));
    match &events[1] {
        LspEvent::Diagnostics(ds) => {
            assert_eq!(ds.len(), 1);
            assert_eq!(ds[0].range.start.line, 1);
            assert_eq!(ds[0].range.start.character, 2);
            assert_eq!(ds[0].range.end.character, 4);
            assert_eq!(ds[0].severity, Some(1));
            assert_eq!(ds[0].message, "bad");
            assert_eq!(get(&ds[0].raw, "message").and_then(as_str), Some("bad"));
        }
        other => panic!("unexpected event {:?}", other),
    }
}

#[test]
fn code_action_requests_and_replies() {
    let (mut c, mut b) = attached();
    b.set_cursor(3, false);
    c.request_code_actions(&b, Vec::new());
    let out = c.take_outgoing();
    assert_eq!(out.len(), 1);
    assert_eq!(method(&out[0]), Some("textDocument/codeAction"));
    let id = get(&out[0], "id").and_then(as_i64).unwrap();
    assert_eq!(id, 2);
    let range = get(get(&out[0], "params").unwrap(), "range").unwrap();
    let start = get(range, "start").unwrap();
    assert_eq!(get(start, "character").and_then(as_u64), Some(3));

    let reply = obj(vec![
        member("id", jint(2)),
        member(
            "result",
            JsonValue::Array(vec![obj(vec![member("title", jstr("Fix it"))]), jint(3)]),
        ),
    ]);
    let events = c.poll(vec![msg(reply)], &b);
    match events.as_slice() {
        [LspEvent::CodeActions(items)] => {
            assert_eq!(items.len(), 1);
            assert_eq!(items[0].title, "Fix it");
        }
        other => panic!("unexpected events {:?}", other),
    }
    let failed = ServerMessage {
        value: obj(vec![member("id", jint(2)), member("error", obj(vec![]))]),
    };
    assert!(c.poll(vec![failed], &b).is_empty());
}

#[test]
fn an_error_reply_is_reported() {
    let (mut c, mut b) = attached();
    b.set_cursor(0, false);
    c.request_code_actions(&b, Vec::new());
    c.take_outgoing();
    let failed = ServerMessage {
        value: obj(vec![member("id", jint(2)), member("error", obj(vec![member("code", jint(-1))]))]),
    };
    let events = c.poll(vec![failed], &b);
    assert!(matches!(events.as_slice(), [LspEvent::Status(s)] if s == "LSP error: {\"code\":-1}"));
}

#[test]
fn code_action_items_from_a_response() {
    let response = JsonValue::Array(vec![
        obj(vec![member("title", jstr("Run")), member("command", jstr("run.cmd"))]),
        obj(vec![member("title", jstr("Edit")), member("edit", obj(vec![]))]),
        obj(vec![member("nothing", jint(1))]),
    ]);
    let items = CodeActionItem::from_lsp_response(&response);
    assert_eq!(items.len(), 2);
    assert_eq!(items[0].title, "run.cmd");
    assert!(items[0].edit.is_none());
    assert!(items[0].command.is_some());
    assert_eq!(items[1].title, "Edit");
    assert!(items[1].edit.is_some());
    assert!(CodeActionItem::from_lsp_response(&jint(1)).is_empty());
}

fn pos(line: i64, ch: i64) -> JsonValue {
    obj(vec![member("line", jint(line)), member("character", jint(ch))])
}

fn text_edit(l0: i64, c0: i64, l1: i64, c1: i64, text: &str) -> JsonValue {
    obj(vec![
        member("range", obj(vec![member("start", pos(l0, c0)), member("end", pos(l1, c1))])),
        member("newText", jstr(text)),
    ])
}

#[test]
fn workspace_edits_apply_to_the_open_file() {
    let mut b = Buffer::open("/p/a.rs".to_string(), "let a = 1;\nlet b = 2;\n");
    let uri = "file:///p/a.rs";
    let edit = obj(vec![member(
        "changes",
        obj(vec![
            member("file:///p/a.rs", JsonValue::Array(vec![text_edit(0, 4, 0, 5, "x"), text_edit(1, 4, 1, 5, "y")])),
            member("file:///p/other.rs", JsonValue::Array(vec![text_edit(0, 0, 0, 3, "zzz")])),
        ]),
    )]);
    assert_eq!(apply_workspace_edit(&mut b, uri, &edit), 2);
    assert_eq!(b.text(), "let x = 1;\nlet y = 2;\n");
    let doc = |u: &str, edits: Vec<JsonValue>| {
        obj(vec![
            member("textDocument", obj(vec![member("uri", jstr(u)), member("version", jint(1))])),
            member("edits", JsonValue::Array(edits)),
        ])
    };
    let document_changes = obj(vec![member(
        "documentChanges",
        JsonValue::Array(vec![
            doc("file:///p/other.rs", vec![text_edit(1, 0, 1, 3, "var")]),
            doc(uri, vec![text_edit(0, 0, 0, 3, "const")]),
            obj(vec![member("edits", JsonValue::Array(vec![text_edit(1, 0, 1, 3, "var")]))]),
        ]),
    )]);
    assert_eq!(apply_workspace_edit(&mut b, uri, &document_changes), 1);
    assert_eq!(b.text(), "const x = 1;\nlet y = 2;\n");
    assert!(b.undo());
    assert_eq!(b.text(), "let x = 1;\nlet y = 2;\n");
}

fn diag(line: u32, start: u32, end: u32, severity: Option<i32>) -> DiagnosticEntry {
    DiagnosticEntry {
        range: DiagRange {
            start: Position { line, character: start },
            end: Position { line, character: end },
        },
        severity,
        message: "bad".to_string(),
        raw: JsonValue::Null,
    }
}

#[test]
fn diagnostics_by_line_and_position() {
    let mut store = DiagnosticStore::default();
    store.set(vec![diag(2, 4, 6, Some(1)), diag(3, 0, 1, Some(2))]);
    assert!(store.has_error_on_line(2));
    assert!(!store.has_warning_on_line(2));
    assert!(store.has_warning_on_line(3));
    assert!(!store.has_error_on_line(3));
    assert_eq!(store.on_line(2).len(), 1);
    assert!(store.highlights_position(2, 4, 10));
    assert!(store.highlights_position(2, 5, 10));
    assert!(!store.highlights_position(2, 6, 10));
    assert_eq!(store.at_position(2, 5).len(), 1);
    assert_eq!(store.at_position(2, 9).len(), 1);
    assert!(store.at_position(5, 0).is_empty());
}

#[test]
fn messages_are_framed_with_their_length() {
    assert_eq!(frame_message(b"{}"), b"Content-Length: 2\r\n\r\n{}".to_vec());
    assert_eq!(frame_message(b""), b"Content-Length: 0\r\n\r\n".to_vec());
}

#[test]
fn header_lines() {
    assert!(matches!(header_line("Content-Length: 12\r\n"), HeaderLine::ContentLength(Some(12))));
    assert!(matches!(header_line("CONTENT-length:3"), HeaderLine::ContentLength(Some(3))));
    assert!(matches!(header_line("content-length: abc\r\n"), HeaderLine::ContentLength(None)));
    assert!(matches!(header_line("\r\n"), HeaderLine::End));
    assert!(matches!(header_line(""), HeaderLine::End));
    assert!(matches!(header_line("Content-Type: utf-8\r\n"), HeaderLine::Other));
    assert!(matches!(header_line("no colon"), HeaderLine::Other));
}

#[test]
fn message_bodies_are_read_and_written_as_json() {
    let v = parse_json(b"{\"id\":3,\"result\":[null,true,-2,1.5,\"x\"]}").unwrap();
    assert_eq!(get(&v, "id").and_then(as_i64), Some(3));
    let items = get(&v, "result").and_then(as_array).unwrap();
    assert_eq!(items.len(), 5);
    assert_eq!(as_i64(&items[2]), Some(-2));
    assert_eq!(as_str(&items[4]), Some("x"));
    assert!(parse_json(b"{not json").is_none());
    let framed = encode_message(&obj(vec![member("a", jint(1))]));
    assert_eq!(framed, b"Content-Length: 7\r\n\r\n{\"a\":1}".to_vec());
}

#[test]
fn content_lengths_are_read_as_usize_reads_them() {
    assert!(matches!(header_line("Content-Length: +7\r\n"), HeaderLine::ContentLength(Some(7))));
    assert!(matches!(header_line("Content-Length: 0\r\n"), HeaderLine::ContentLength(Some(0))));
    assert!(matches!(header_line("Content-Length: +\r\n"), HeaderLine::ContentLength(None)));
    assert!(matches!(header_line("Content-Length: -1\r\n"), HeaderLine::ContentLength(None)));
    assert!(matches!(header_line("Content-Length: 1 2\r\n"), HeaderLine::ContentLength(None)));
    assert!(matches!(
        header_line("Content-Length: 99999999999999999999999\r\n"),
        HeaderLine::ContentLength(None)
    ));
}
