use nvimglsl::editcore::buffer::Buffer;
use nvimglsl::editcore::editor::{Editor, Mode};
use nvimglsl::proto::rpc::{classify, index, rpc_call, Incoming, RpcArg, RpcReply, UiAction, UiOptions};

fn editor(text: &str) -> Editor {
    Editor::new(Buffer::from_text(text))
}

fn lines(e: &Editor) -> Vec<String> {
    e.buffer.lines_text(0, e.buffer.line_count())
}

fn s(t: &str) -> RpcArg {
    RpcArg::Str(t.to_string())
}

#[test]
fn api_info_names_the_host_and_its_channel() {
    let mut e = editor("a\n");
    let (err, reply, ui) = rpc_call(&mut e, 3, "nvim_get_api_info", &[]);
    assert!(err.is_none());
    assert_eq!(ui, UiAction::Nothing);
    match reply {
        RpcReply::ApiInfo(info) => {
            assert_eq!((info.channel, info.major, info.minor, info.patch, info.api_level), (3, 0, 11, 0, 12));
            assert_eq!(info.name, "nvimglsl");
            assert_eq!(info.protocol_face, "ui");
        }
        _ => panic!("not api info"),
    }
}

#[test]
fn unknown_methods_and_lua_are_refused_with_a_message() {
    let mut e = editor("a\n");
    let (err, reply, _) = rpc_call(&mut e, 1, "nvim_frobnicate", &[]);
    assert_eq!(err.unwrap(), "unknown method: nvim_frobnicate");
    assert_eq!(reply, RpcReply::Nil);
    let (err, _, _) = rpc_call(&mut e, 1, "nvim_exec_lua", &[s("return 1")]);
    assert!(err.unwrap().contains("no Lua runtime"));
    let (err, _, _) = rpc_call(&mut e, 1, "nvim_ui_set_option", &[]);
    assert!(err.is_none());
}

#[test]
fn attach_and_resize_default_to_eighty_by_twenty_four() {
    let mut e = editor("a\n");
    let (_, _, ui) = rpc_call(&mut e, 1, "nvim_ui_attach", &[]);
    assert_eq!(ui, UiAction::Attach { cols: 80, rows: 24, options: UiOptions::none() });
    let options = RpcArg::Dict(vec![(s("ext_messages"), RpcArg::Bool(true)), (s("ext_multigrid"), RpcArg::Integer(1))]);
    let (_, _, ui) = rpc_call(&mut e, 1, "nvim_ui_attach", &[RpcArg::Integer(100), RpcArg::Integer(40), options]);
    assert_eq!(
        ui,
        UiAction::Attach {
            cols: 100,
            rows: 40,
            options: UiOptions { ext_multigrid: false, ext_popupmenu: false, ext_cmdline: true, ext_messages: true },
        }
    );
    let (_, _, ui) = rpc_call(&mut e, 1, "nvim_ui_try_resize", &[RpcArg::Integer(-5), RpcArg::Integer(30)]);
    assert_eq!(ui, UiAction::Resize { cols: 80, rows: 30 });
    let (_, _, ui) = rpc_call(&mut e, 1, "nvim_ui_detach", &[]);
    assert_eq!(ui, UiAction::Detach);
}

#[test]
fn buffer_calls_read_and_replace_lines_with_end_relative_indexes() {
    let mut e = editor("one\ntwo\nthree\n");
    let (_, reply, _) = rpc_call(&mut e, 1, "nvim_buf_get_lines", &[RpcArg::Integer(0), RpcArg::Integer(1), RpcArg::Integer(-1)]);
    assert_eq!(reply, RpcReply::Lines(vec!["two".to_string(), "three".to_string()]));
    let (_, reply, _) = rpc_call(&mut e, 1, "nvim_buf_line_count", &[]);
    assert_eq!(reply, RpcReply::Count(3));
    let repl = RpcArg::Array(vec![s("x"), RpcArg::Integer(5)]);
    rpc_call(&mut e, 1, "nvim_buf_set_lines", &[RpcArg::Integer(0), RpcArg::Integer(0), RpcArg::Integer(2), RpcArg::Bool(false), repl]);
    assert_eq!(lines(&e), vec!["x", "", "three"]);
    assert!(e.buffer.modified());
    e.feed_str("u");
    assert_eq!(lines(&e), vec!["one", "two", "three"]);
    let (_, reply, _) = rpc_call(&mut e, 1, "nvim_buf_get_name", &[]);
    assert_eq!(reply, RpcReply::Text("[No Name]".to_string()));
    assert_eq!(rpc_call(&mut e, 1, "nvim_get_current_buf", &[]).1, RpcReply::Count(1));
}

#[test]
fn input_feeds_keys_and_answers_their_byte_count() {
    let mut e = editor("ab\n");
    let (_, reply, _) = rpc_call(&mut e, 1, "nvim_input", &[s("x")]);
    assert_eq!(reply, RpcReply::Count(1));
    assert_eq!(lines(&e), vec!["b"]);
    let (_, reply, _) = rpc_call(&mut e, 1, "nvim_input", &[s("ié")]);
    assert_eq!(reply, RpcReply::Count(3));
    assert_eq!(e.mode, Mode::Insert);
    let (_, reply, _) = rpc_call(&mut e, 1, "nvim_get_mode", &[]);
    assert_eq!(reply, RpcReply::Mode { mode: "i".to_string(), blocking: false });
    rpc_call(&mut e, 1, "nvim_input", &[s("<Esc>")]);
    rpc_call(&mut e, 1, "nvim_command", &[s("2")]);
    assert_eq!(rpc_call(&mut e, 1, "nvim_get_mode", &[]).1, RpcReply::Mode { mode: "n".to_string(), blocking: false });
}

#[test]
fn line_indexes_count_negative_ones_from_past_the_end() {
    assert_eq!(index(Some(-1), 3, 0), 3);
    assert_eq!(index(Some(-2), 3, 0), 2);
    assert_eq!(index(Some(-10), 3, 0), 0);
    assert_eq!(index(Some(7), 3, 0), 3);
    assert_eq!(index(Some(1), 3, 0), 1);
    assert_eq!(index(None, 3, 2), 2);
}

#[test]
fn the_api_info_reports_a_channel_and_a_version() {
    let mut e = editor("");
    let (err, reply, _) = rpc_call(&mut e, 1, "nvim_get_api_info", &[]);
    assert!(err.is_none());
    match reply {
        RpcReply::ApiInfo(info) => {
            assert_eq!(info.channel, 1);
            assert_eq!((info.major, info.minor), (0, 11));
        }
        _ => panic!("not api info"),
    }
}

#[test]
fn buffer_lines_can_be_read_and_written_over_the_api_face() {
    let mut e = editor("one\ntwo\n");
    let args = [RpcArg::Integer(0), RpcArg::Integer(0), RpcArg::Integer(-1), RpcArg::Bool(false)];
    let (_, reply, _) = rpc_call(&mut e, 1, "nvim_buf_get_lines", &args);
    match reply {
        RpcReply::Lines(lines) => {
            assert_eq!(lines.len(), 2);
            assert_eq!(lines[0], "one");
        }
        _ => panic!("not lines"),
    }
    let set = [RpcArg::Integer(0), RpcArg::Integer(0), RpcArg::Integer(1), RpcArg::Bool(false), RpcArg::Array(vec![s("ONE")])];
    rpc_call(&mut e, 1, "nvim_buf_set_lines", &set);
    assert_eq!(lines(&e)[0], "ONE");
}

#[test]
fn exec_lua_reports_that_there_is_no_lua_rather_than_succeeding_silently() {
    let mut e = editor("");
    let (err, _, _) = rpc_call(&mut e, 4, "nvim_exec_lua", &[s("return 1")]);
    assert!(err.unwrap().contains("no Lua runtime"));
}

#[test]
fn messages_are_requests_notifications_or_ignored() {
    let request = RpcArg::Array(vec![RpcArg::Integer(0), RpcArg::Integer(7), s("nvim_input"), RpcArg::Array(vec![s("x")])]);
    assert_eq!(
        classify(request),
        Incoming::Request { msgid: 7, method: "nvim_input".into(), args: vec![s("x")] }
    );
    let note = RpcArg::Array(vec![RpcArg::Integer(2), s("nvim_command"), RpcArg::Nil]);
    assert_eq!(classify(note), Incoming::Notify { method: "nvim_command".into(), args: vec![] });
    let odd = RpcArg::Array(vec![RpcArg::Integer(0), RpcArg::Bool(true), RpcArg::Nil, RpcArg::Nil]);
    assert_eq!(classify(odd), Incoming::Request { msgid: 0, method: "".into(), args: vec![] });
    assert_eq!(classify(RpcArg::Array(vec![RpcArg::Integer(1), RpcArg::Integer(3), RpcArg::Nil, RpcArg::Nil])), Incoming::Ignored);
    assert_eq!(classify(RpcArg::Array(vec![RpcArg::Integer(0), RpcArg::Integer(3), s("m")])), Incoming::Ignored);
    assert_eq!(classify(s("not a message")), Incoming::Ignored);
}
