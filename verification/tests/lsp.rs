use nvimglsl::editcore::buffer::Buffer;
use nvimglsl::lsp::registry::{root_candidates, root_for, server, servers_for_path};
use nvimglsl::lsp::types::{path_to_uri, uri_to_path, Position, Range};
use nvimglsl::textpos::{char_to_utf16, utf16_to_char};

#[test]
fn lsp_positions_use_utf16_not_bytes_or_cells() {
    let buffer = Buffer::from_text("a🙂b\nあb\n");
    assert_eq!(Position::from_buffer_chars(&buffer, 0, 2).character, 3);
    assert_eq!(
        Position {
            line: 0,
            character: 3
        }
        .to_buffer_chars(&buffer),
        (0, 2)
    );
    assert_eq!(Position::from_buffer_chars(&buffer, 1, 1).character, 1);
}

#[test]
fn file_uris_round_trip_spaces_and_japanese() {
    let path = "/tmp/a b/日本語.rs";
    let uri = path_to_uri(path);
    assert!(uri.contains("%20"));
    assert_eq!(uri_to_path(&uri).unwrap(), path);
}

#[test]
fn uris_escape_bytes_in_upper_case_hex() {
    assert_eq!(path_to_uri("/a b/é"), "file:///a%20b/%C3%A9");
    assert_eq!(uri_to_path("http://x"), None);
    assert_eq!(uri_to_path("file:///a%2"), Some("/a%2".to_string()));
    assert_eq!(uri_to_path("file:///%zz"), Some("/%zz".to_string()));
    assert_eq!(uri_to_path("file:///%41%6a"), Some("/Aj".to_string()));
}

#[test]
fn half_a_surrogate_pair_does_not_reach_the_character() {
    let line: Vec<char> = "a🙂b".chars().collect();
    assert_eq!(utf16_to_char(&line, 2), 1);
    assert_eq!(utf16_to_char(&line, 99), 3);
    assert_eq!(char_to_utf16(&line, 99), 4);
}

#[test]
fn positions_past_the_end_clamp_to_the_last_line() {
    let buffer = Buffer::from_text("ab\ncd\n");
    assert_eq!(Position { line: 9, character: 1 }.to_buffer_chars(&buffer), (1, 1));
    let range = Range::from_buffer_chars(&buffer, (0, 1), (1, 1));
    assert!(range.contains_buffer_position(&buffer, 0, 1));
    assert!(range.contains_buffer_position(&buffer, 1, 0));
    assert!(!range.contains_buffer_position(&buffer, 1, 1));
    assert!(!range.contains_buffer_position(&buffer, 0, 0));
}

#[test]
fn known_servers_use_mason_bin_before_path_lookup() {
    let rust = server("rust_analyzer", "");
    assert!(rust.argv[0].contains(".local/share/nvim/mason/bin"));
    assert!(rust.argv[0].ends_with("rust-analyzer"));
    assert!(rust.args.is_empty());

    let pyright = server("pyright", "");
    assert_eq!(pyright.args, vec!["--stdio"]);
}

#[test]
fn file_extensions_choose_the_named_servers() {
    let names: Vec<_> = servers_for_path("x.ts", "")
        .into_iter()
        .map(|s| s.name)
        .collect();
    assert_eq!(names, vec!["ts_ls", "eslint"]);
    assert_eq!(servers_for_path("x.md", "").len(), 0);
}

#[test]
fn the_home_directory_leads_to_mason() {
    let lua = server("lua_ls", "/home/me");
    assert_eq!(lua.argv, vec!["/home/me/.local/share/nvim/mason/bin/lua-language-server"]);
    assert_eq!(
        lua.missing_message(),
        "LSP server 'lua_ls' not found at /home/me/.local/share/nvim/mason/bin/lua-language-server"
    );
    assert_eq!(servers_for_path("/src/main.rs", "/h")[0].name, "rust_analyzer");
    assert!(servers_for_path("/src/.rs", "/h").is_empty());
    assert_eq!(servers_for_path("/src/a.py/", "/h")[0].name, "pyright");
}

use nvimglsl::json::{Json, JsonNumber};
use nvimglsl::lsp::jsonrpc::{
    frame, frame_length, message_from_json, message_to_json, read_message, write_message, write_value, Id, Message,
};

fn text(s: &str) -> Json {
    Json::String(s.to_string())
}

fn object(members: Vec<(&str, Json)>) -> Json {
    Json::Object(members.into_iter().map(|(k, v)| (k.to_string(), v)).collect())
}

fn hover_request() -> Message {
    Message::Request {
        id: Id::Number(7),
        method: "textDocument/hover".into(),
        params: object(vec![("textDocument", object(vec![("uri", text("file:///x"))]))]),
    }
}

fn split_frame(bytes: &[u8]) -> (Vec<String>, &[u8]) {
    let end = bytes.windows(4).position(|w| w == b"\r\n\r\n").unwrap() + 4;
    let head = std::str::from_utf8(&bytes[..end]).unwrap();
    let lines: Vec<String> = head.split_inclusive("\r\n").map(|l| l.to_string()).collect();
    (lines, &bytes[end..])
}

#[test]
fn content_length_framing_round_trips_a_request() {
    let (_, bytes) = write_message(hover_request());
    assert!(std::str::from_utf8(&bytes).unwrap().starts_with("Content-Length: "));
    let (headers, rest) = split_frame(&bytes);
    let len = frame_length(&headers).unwrap();
    assert_eq!(read_message(&rest[..len]).unwrap(), hover_request());
}

#[test]
fn notification_has_no_id_and_response_keeps_the_id() {
    let note = message_from_json(object(vec![
        ("jsonrpc", text("2.0")),
        ("method", text("initialized")),
        ("params", object(vec![])),
    ]))
    .unwrap();
    assert!(matches!(note, Message::Notification { .. }));

    let response = message_from_json(object(vec![
        ("jsonrpc", text("2.0")),
        ("id", text("abc")),
        ("result", Json::Null),
    ]))
    .unwrap();
    assert!(matches!(response, Message::Response { id: Id::String(_), .. }));
}

#[test]
fn frame_length_takes_the_last_content_length_before_the_blank_line() {
    let lines = |v: &[&str]| v.iter().map(|s| s.to_string()).collect::<Vec<String>>();
    assert_eq!(frame_length(&lines(&["content-LENGTH: 12\r\n", "\r\n"])), Some(12));
    assert_eq!(frame_length(&lines(&["Content-Length: 3\r\n", "Content-Length:  5 \r\n", "\r\n"])), Some(5));
    assert_eq!(frame_length(&lines(&["Content-Type: x\r\n", "\r\n"])), None);
    assert_eq!(frame_length(&lines(&["Content-Length: 3\r\n", "\r\n", "Content-Length: 9\r\n"])), Some(3));
    assert_eq!(frame_length(&lines(&["Content-Length: 3\r\n", "Content-Length: x\r\n", "\r\n"])), None);
    assert_eq!(frame_length(&lines(&["Content-Length: +4\n", "\n"])), Some(4));
}

#[test]
fn a_value_is_framed_behind_its_length() {
    let v = Json::Array(vec![Json::Number(JsonNumber::PosInt(1))]);
    assert_eq!(write_value(&v), b"Content-Length: 3\r\n\r\n[1]".to_vec());
    assert_eq!(frame(b""), b"Content-Length: 0\r\n\r\n".to_vec());
}

#[test]
fn a_message_is_written_with_sorted_members_and_no_null_params() {
    let (v, bytes) = write_message(Message::Notification { method: "exit".into(), params: Json::Null });
    assert_eq!(v, object(vec![("jsonrpc", text("2.0")), ("method", text("exit"))]));
    assert_eq!(bytes, b"Content-Length: 33\r\n\r\n{\"jsonrpc\":\"2.0\",\"method\":\"exit\"}".to_vec());
    let error = message_to_json(Message::Response {
        id: Id::Number(1),
        result: None,
        error: Some(text("bad")),
    });
    assert_eq!(error, object(vec![("error", text("bad")), ("id", Json::Number(JsonNumber::PosInt(1))), ("jsonrpc", text("2.0"))]));
}

#[test]
fn bodies_that_are_not_messages_are_refused() {
    assert_eq!(read_message(b"{not json"), None);
    assert_eq!(read_message(b"[1,2]"), None);
    assert_eq!(read_message(b"{\"jsonrpc\":\"2.0\"}"), None);
    assert_eq!(
        read_message(b"{\"id\":-1,\"method\":\"m\"}"),
        Some(Message::Notification { method: "m".into(), params: Json::Null })
    );
}

#[test]
fn ids_are_written_as_numbers_or_strings() {
    assert_eq!(Id::Number(3).to_value(), Json::Number(JsonNumber::PosInt(3)));
    assert_eq!(Id::from_value(&text("a")), Some(Id::String("a".into())));
    assert_eq!(Id::from_value(&Json::Number(JsonNumber::NegInt(-2))), None);
}

use nvimglsl::lsp::session::{CompletionItem, CompletionMenu};

fn item(label: &str) -> CompletionItem {
    CompletionItem {
        label: label.into(),
        kind: None,
        detail: None,
        documentation: None,
        insert_text: None,
        text_edit: None,
    }
}

#[test]
fn completion_menu_wraps_selection() {
    let mut menu = CompletionMenu { items: vec![item("a"), item("b")], selected: None, row: 0, col: 0, grid: 1 };
    menu.select_next();
    assert_eq!(menu.selected, Some(0));
    menu.select_prev();
    assert_eq!(menu.selected, Some(1));
}

#[test]
fn selection_steps_round_both_ends_and_empty_menus_select_nothing() {
    let mut menu = CompletionMenu { items: vec![item("a"), item("b"), item("c")], selected: Some(2), row: 0, col: 0, grid: 1 };
    menu.select_next();
    assert_eq!(menu.selected, Some(0));
    menu.select_next();
    assert_eq!(menu.selected, Some(1));
    menu.select_prev();
    menu.select_prev();
    assert_eq!(menu.selected, Some(2));
    let mut empty = CompletionMenu { items: vec![], selected: Some(4), row: 0, col: 0, grid: 1 };
    empty.select_next();
    assert_eq!(empty.selected, None);
    empty.selected = Some(1);
    empty.select_prev();
    assert_eq!(empty.selected, None);
}

use nvimglsl::lsp::session::{definition_location, definition_message};

fn num(n: u64) -> Json {
    Json::Number(JsonNumber::PosInt(n))
}

fn place(line: u64, character: u64) -> Json {
    object(vec![("line", num(line)), ("character", num(character))])
}

#[test]
fn definition_response_keeps_the_first_location() {
    let answer = Json::Array(vec![object(vec![
        ("uri", text("file:///tmp/main.rs")),
        ("range", object(vec![("start", place(2, 4)), ("end", place(2, 8))])),
    ])]);
    let mut session = LspState::new();
    let said = session.handle_event(LspEvent::Response {
        server: "fake".into(),
        id: Id::Number(1),
        kind: Some(RequestKind::Definition),
        result: Some(clone_params(&answer)),
        error: None,
    });
    assert_eq!(said, None);
    assert_eq!(session.definition.as_ref().unwrap().uri, "file:///tmp/main.rs");
    assert_eq!(session.definition.as_ref().unwrap().range.start.line, 2);
    let location = definition_location(&answer).unwrap();
    assert_eq!(location.uri, "file:///tmp/main.rs");
    assert_eq!(location.range.start.line, 2);
    assert_eq!(location.range.end.character, 8);
    assert_eq!(definition_message(&Some(location)), None);
}

#[test]
fn definition_answers_without_a_place_are_reported() {
    assert!(definition_location(&Json::Null).is_none());
    assert_eq!(definition_message(&None).unwrap(), "LSP definition not found");
    let single = object(vec![("uri", text("file:///a")), ("range", object(vec![("start", place(0, 0)), ("end", place(1, 0))]))]);
    assert_eq!(definition_location(&single).unwrap().range.end.line, 1);
    let as_array = Json::Array(vec![text("file:///b"), Json::Array(vec![Json::Array(vec![num(3), num(1)]), place(3, 2)])]);
    assert_eq!(definition_location(&as_array).unwrap().uri, "file:///b");
    let negative = object(vec![("uri", text("file:///a")), ("range", object(vec![("start", object(vec![("line", Json::Number(JsonNumber::NegInt(-1))), ("character", num(0))])), ("end", place(1, 0))]))]);
    assert!(definition_location(&negative).is_none());
    assert!(definition_location(&Json::Array(vec![])).is_none());
}

use nvimglsl::lsp::session::publish_diagnostics;

#[test]
fn publish_diagnostics_updates_uri_bucket() {
    let params = object(vec![
        ("uri", text("file:///tmp/x.rs")),
        (
            "diagnostics",
            Json::Array(vec![object(vec![
                ("range", object(vec![("start", place(0, 1)), ("end", place(0, 2))])),
                ("severity", num(1)),
                ("message", text("bad")),
            ])]),
        ),
    ]);
    let mut session = LspState::new();
    let said = session.handle_event(LspEvent::Notification {
        server: "fake".into(),
        method: "textDocument/publishDiagnostics".into(),
        params: clone_params(&params),
    });
    assert_eq!(said, None);
    assert_eq!(session.diagnostics[0].0, "file:///tmp/x.rs");
    assert_eq!(session.diagnostics[0].1[0].message, "bad");
    let (uri, diagnostics) = publish_diagnostics(&params).unwrap();
    assert_eq!(uri, "file:///tmp/x.rs");
    assert_eq!(diagnostics[0].message, "bad");
    assert_eq!(diagnostics[0].severity, Some(1));
    assert_eq!(diagnostics[0].range.start.character, 1);
}

#[test]
fn one_unreadable_diagnostic_empties_the_list() {
    let good = object(vec![("range", object(vec![("start", place(0, 0)), ("end", place(0, 1))])), ("message", text("m")), ("source", Json::Null)]);
    let bad = object(vec![("range", object(vec![("start", place(0, 0)), ("end", place(0, 1))])), ("message", text("m")), ("severity", num(300))]);
    let params = object(vec![("uri", text("u")), ("diagnostics", Json::Array(vec![good, bad]))]);
    assert_eq!(publish_diagnostics(&params).unwrap().1.len(), 0);
    assert!(publish_diagnostics(&object(vec![("diagnostics", Json::Array(vec![]))])).is_none());
    let as_array = Json::Array(vec![
        object(vec![("start", place(1, 0)), ("end", place(1, 3))]),
        Json::Null,
        num(5),
        text("lint"),
        text("msg"),
    ]);
    let params = object(vec![("uri", text("u")), ("diagnostics", Json::Array(vec![as_array]))]);
    let (_, ds) = publish_diagnostics(&params).unwrap();
    assert_eq!(ds[0].source.as_deref(), Some("lint"));
    assert_eq!(ds[0].severity, None);
}

use nvimglsl::lsp::session::{completion_items, hover_text, markdown_text, LspEvent, LspState, RequestKind};

fn clone_params(v: &Json) -> Json {
    match v {
        Json::Null => Json::Null,
        Json::Bool(b) => Json::Bool(*b),
        Json::Number(n) => Json::Number(n.clone()),
        Json::String(s) => Json::String(s.clone()),
        Json::Array(a) => Json::Array(a.iter().map(clone_params).collect()),
        Json::Object(es) => Json::Object(es.iter().map(|(k, v)| (k.clone(), clone_params(v))).collect()),
    }
}

fn menu() -> CompletionMenu {
    CompletionMenu { items: vec![], selected: None, row: 3, col: 4, grid: 1 }
}

#[test]
fn completion_answers_fill_the_open_menu_or_close_it() {
    let mut session = LspState::new();
    session.completion = Some(menu());
    let answer = object(vec![("isIncomplete", Json::Bool(false)), ("items", Json::Array(vec![
        object(vec![("label", text("push")), ("kind", num(2)), ("insertText", text("push()")), ("documentation", text("adds"))]),
        object(vec![("label", text("pop"))]),
    ]))]);
    assert_eq!(session.handle_event(LspEvent::Response { server: "s".into(), id: Id::Number(2), kind: Some(RequestKind::Completion), result: Some(answer), error: None }), None);
    let m = session.completion.as_ref().unwrap();
    assert_eq!(m.items.len(), 2);
    assert_eq!(m.selected, Some(0));
    assert_eq!((m.row, m.col), (3, 4));
    assert_eq!(m.items[0].insert_text.as_deref(), Some("push()"));
    assert_eq!(m.items[0].documentation, Some(text("adds")));
    assert_eq!(m.items[0].kind, Some(2));
    session.handle_event(LspEvent::Response { server: "s".into(), id: Id::Number(3), kind: Some(RequestKind::Completion), result: None, error: None });
    assert!(session.completion.is_none());
}

#[test]
fn completion_items_are_read_like_their_struct() {
    let bare = Json::Array(vec![object(vec![("label", text("a")), ("textEdit", object(vec![("range", object(vec![("start", place(0, 0)), ("end", place(0, 1))])), ("newText", text("ab"))]))])]);
    let items = completion_items(bare);
    assert_eq!(items[0].text_edit.as_ref().unwrap().new_text, "ab");
    let as_array = Json::Array(vec![Json::Array(vec![text("x"), Json::Null])]);
    assert_eq!(completion_items(as_array)[0].label, "x");
    let bad = Json::Array(vec![object(vec![("label", text("a"))]), object(vec![("kind", num(1))])]);
    assert!(completion_items(bad).is_empty());
    assert!(completion_items(Json::Null).is_empty());
}

#[test]
fn hover_contents_become_plain_text() {
    let markup = object(vec![("contents", object(vec![("kind", text("markdown")), ("value", text("fn f()"))]))]);
    assert_eq!(hover_text(&markup).unwrap(), "fn f()");
    let parts = object(vec![("contents", Json::Array(vec![text("a"), object(vec![("language", text("rust")), ("value", text("b"))])]))]);
    assert_eq!(hover_text(&parts).unwrap(), "a\nb");
    assert!(hover_text(&object(vec![("contents", text(""))])).is_none());
    assert!(hover_text(&object(vec![("range", Json::Null)])).is_none());
    assert_eq!(markdown_text(&object(vec![("contents", text("c"))])), "c");
    let mut session = LspState::new();
    let said = session.handle_event(LspEvent::Response { server: "s".into(), id: Id::Number(4), kind: Some(RequestKind::Hover), result: Some(markup), error: None });
    assert_eq!(said.unwrap(), "fn f()");
    let said = session.handle_event(LspEvent::Closed { server: "pyright".into() });
    assert_eq!(said.unwrap(), "LSP server 'pyright' exited");
    let said = session.handle_event(LspEvent::Response { server: "s".into(), id: Id::Number(5), kind: Some(RequestKind::Definition), result: Some(Json::Null), error: None });
    assert_eq!(said.unwrap(), "LSP definition not found");
}

#[test]
fn republished_diagnostics_replace_their_documents() {
    let mut session = LspState::new();
    let publish = |uri: &str, n: usize| {
        let d = object(vec![("range", object(vec![("start", place(0, 0)), ("end", place(0, 1))])), ("message", text("m"))]);
        let mut ds = Vec::new();
        for _ in 0..n {
            ds.push(clone_params(&d));
        }
        LspEvent::Notification { server: "s".into(), method: "textDocument/publishDiagnostics".into(), params: object(vec![("uri", text(uri)), ("diagnostics", Json::Array(ds))]) }
    };
    session.handle_event(publish("a", 2));
    session.handle_event(publish("b", 1));
    session.handle_event(publish("a", 0));
    assert_eq!(session.diagnostics.len(), 2);
    assert_eq!(session.diagnostics[0].0, "a");
    assert!(session.diagnostics[0].1.is_empty());
    assert_eq!(session.diagnostics[1].1.len(), 1);
}

#[test]
fn the_root_search_walks_up_from_the_file() {
    assert_eq!(root_candidates("/a/b/c.rs"), vec!["/a/b", "/a", "/"]);
    assert_eq!(root_for("/a/b/c.rs", &[false, true, false]), "/a");
    assert_eq!(root_for("/a/b/c.rs", &[true, true, true]), "/a/b");
    // No marker anywhere: the file's own directory.
    assert_eq!(root_for("/a/b/c.rs", &[false, false, false]), "/a/b");
    assert_eq!(root_for("/a/b/c.rs", &[]), "/a/b");
    assert_eq!(root_candidates("c.rs"), vec![""]);
    assert_eq!(root_for("/", &[false]), ".");
}
