use nvimglsl::grep::{byte_to_char, consume_stdout, finish_literal, literal_needle, scan_literal_text, short_query, parse_match, parse_match_line, rg_argv, Engine, Hit, MAX_HITS, MIN_QUERY_CHARS};
use nvimglsl::json::{Json, JsonNumber};

#[test]
fn rg_json_byte_offsets_become_character_columns() {
    let line = r#"{"type":"match","data":{"path":{"text":"sample.txt"},"lines":{"text":"abc あいう\n"},"line_number":7,"absolute_offset":0,"submatches":[{"match":{"text":"い"},"start":7,"end":10}]}}"#;
    let hit = parse_match_line("", line).unwrap();
    assert_eq!(hit.line, 7);
    assert_eq!(hit.column, 5);
}

#[test]
fn match_paths_are_joined_onto_the_root() {
    let line = r#"{"type":"match","data":{"path":{"text":"src/a.rs"},"lines":{"text":"x\r\n"},"line_number":2,"submatches":[{"start":0,"end":1}]}}"#;
    let hit = parse_match_line("/work", line).unwrap();
    assert_eq!(hit.path, "/work/src/a.rs");
    assert_eq!(hit.text, "x\r\n");
    assert_eq!(hit.column, 0);
    let abs = r#"{"type":"match","data":{"path":{"text":"/etc/x"},"lines":{"text":"x"},"line_number":1,"submatches":[{"start":1}]}}"#;
    assert_eq!(parse_match_line("/work/", abs).unwrap().path, "/etc/x");
}

#[test]
fn other_records_are_no_hits() {
    assert!(parse_match_line("", r#"{"type":"begin","data":{}}"#).is_none());
    assert!(parse_match_line("", "not json").is_none());
    let no_sub = r#"{"type":"match","data":{"path":{"text":"a"},"lines":{"text":"x"},"line_number":1,"submatches":[]}}"#;
    assert!(parse_match_line("", no_sub).is_none());
    assert!(parse_match("", Json::Number(JsonNumber::PosInt(1))).is_none());
}

#[test]
fn byte_offsets_count_whole_characters() {
    let chars: Vec<char> = "aé日𝄞b".chars().collect();
    assert_eq!(byte_to_char(&chars, 0), 0);
    assert_eq!(byte_to_char(&chars, 1), 1);
    assert_eq!(byte_to_char(&chars, 2), 1);
    assert_eq!(byte_to_char(&chars, 3), 2);
    assert_eq!(byte_to_char(&chars, 6), 3);
    assert_eq!(byte_to_char(&chars, 10), 4);
    assert_eq!(byte_to_char(&chars, 99), 5);
}

#[test]
fn the_search_tool_is_asked_for_json() {
    let argv = rg_argv("/usr/bin/rg", "needle");
    assert_eq!(argv[0], "/usr/bin/rg");
    assert_eq!(argv[1], "--json");
    assert_eq!(argv[9], "needle");
    assert_eq!(argv.len(), 11);
    assert_eq!(Engine::Ripgrep.label(), "rg");
    assert_eq!(Engine::LiteralFallback.label(), "literal fallback");
    assert_eq!((MIN_QUERY_CHARS, MAX_HITS), (2, 10_000));
}

#[test]
fn complete_output_lines_become_hits_and_the_rest_waits() {
    let m = r#"{"type":"match","data":{"path":{"text":"a.txt"},"lines":{"text":"hello\n"},"line_number":3,"submatches":[{"start":1}]}}"#;
    let mut stdout = format!("{m}  \r\n{{\"type\":\"begin\"}}\n{m}\npartial");
    let mut hits: Vec<Hit> = Vec::new();
    consume_stdout("/p", &mut stdout, &mut hits);
    assert_eq!(stdout, "partial");
    assert_eq!(hits.len(), 2);
    assert_eq!((hits[0].path.as_str(), hits[0].line, hits[0].column), ("/p/a.txt", 3, 1));
    assert_eq!(hits[1].text, "hello\n");
    consume_stdout("/p", &mut stdout, &mut hits);
    assert_eq!(stdout, "partial");
    assert_eq!(hits.len(), 2);
}

#[test]
fn literal_fallback_is_literal_not_regex() {
    let (needle, sensitive) = literal_needle("a.c");
    let mut hits = Vec::new();
    scan_literal_text("/root/a.txt", "a.c\nabc\n", &needle, sensitive, &mut hits);
    let result = finish_literal(hits);
    assert_eq!(result.engine, Engine::LiteralFallback);
    assert_eq!(result.hits.len(), 1);
    assert_eq!(result.hits[0].line, 1);
}

#[test]
fn literal_search_ignores_case_unless_the_query_has_capitals() {
    assert_eq!(literal_needle("Foo"), ("Foo".to_string(), true));
    assert_eq!(literal_needle("foo"), ("foo".to_string(), false));
    let mut hits = Vec::new();
    scan_literal_text("f", "x FOO\r\nfoo\nFoo", "foo", false, &mut hits);
    assert_eq!(hits.len(), 3);
    assert_eq!((hits[0].line, hits[0].column, hits[0].text.as_str()), (1, 2, "x FOO"));
    assert_eq!((hits[2].line, hits[2].column), (3, 0));
    let mut exact = Vec::new();
    scan_literal_text("f", "x FOO\nfoo\n", "FOO", true, &mut exact);
    assert_eq!(exact.len(), 1);
    let mut wide = Vec::new();
    scan_literal_text("f", "日本 needle", "needle", true, &mut wide);
    assert_eq!(wide[0].column, 3);
    assert!(short_query("a").is_some());
    assert!(short_query("ab").is_none());
}

#[test]
fn literal_results_are_cut_at_the_hit_limit() {
    let text = "x\n".repeat(MAX_HITS + 5);
    let mut hits = Vec::new();
    scan_literal_text("f", &text, "x", true, &mut hits);
    assert_eq!(hits.len(), MAX_HITS + 1);
    let result = finish_literal(hits);
    assert!(result.truncated);
    assert_eq!(result.hits.len(), MAX_HITS);
}

#[test]
fn a_hit_is_shown_below_the_root() {
    let hit = Hit { path: "/work/proj/src/main.rs".to_string(), line: 12, column: 4, text: "let x = 1;  \t\n".to_string() };
    assert_eq!(hit.display("/work/proj"), "src/main.rs:12:5: let x = 1;");
    assert_eq!(hit.display("/work/proj/"), "src/main.rs:12:5: let x = 1;");
}

#[test]
fn a_hit_outside_the_root_keeps_its_whole_path() {
    let hit = Hit { path: "/elsewhere/a.txt".to_string(), line: 1, column: 0, text: "あい".to_string() };
    assert_eq!(hit.display("/work/proj"), "/elsewhere/a.txt:1:1: あい");
    // A root matches whole components only.
    let near = Hit { path: "/work/project/b.rs".to_string(), line: 3, column: 9, text: "x".to_string() };
    assert_eq!(near.display("/work/proj"), "/work/project/b.rs:3:10: x");
}

#[test]
fn a_hit_can_be_shown_by_a_given_path() {
    let hit = Hit { path: "/r/x.rs".to_string(), line: 100, column: 41, text: "  body ".to_string() };
    assert_eq!(hit.display_as("x.rs"), "x.rs:100:42:   body");
}
