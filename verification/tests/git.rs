use nvimglsl::editcore::vcs::HeadLabel;
use nvimglsl::git::{blame, blob_object, head_blob, head_label, lines_of, parse_blame, repo_root, BlobLookup, GitOutput};

fn ok(text: &str) -> GitOutput {
    GitOutput { status: Some(0), stdout: text.as_bytes().to_vec() }
}

fn failed() -> GitOutput {
    GitOutput { status: Some(128), stdout: Vec::new() }
}

#[test]
fn porcelain_blame_is_line_addressed() {
    let text = "\
0123456789012345678901234567890123456789 1 1 1
author Mina
author-time 1700000000
summary initial
\tone
";
    let lines = parse_blame(text).unwrap();
    assert_eq!(lines.len(), 1);
    assert_eq!(lines[0].line, 0);
    assert_eq!(lines[0].commit, "012345678901");
    assert_eq!(lines[0].author, "Mina");
    assert_eq!(lines[0].summary, "initial");
    assert_eq!(lines[0].time, Some(1700000000));
}

#[test]
fn a_blamed_line_before_any_header_fails_the_parse() {
    assert!(parse_blame("\tstray\n").is_none());
    assert_eq!(parse_blame("").unwrap().len(), 0);
}

#[test]
fn a_new_header_clears_the_previous_author() {
    let text = "\
aaaaaaaaaaaaaaaaaaaaaaaaaaaaaaaaaaaaaaaa 3 5 1
author One
\tx
bbbbbbbbbbbbbbbbbbbbbbbbbbbbbbbbbbbbbbbb 1 6
\ty
";
    let lines = parse_blame(text).unwrap();
    assert_eq!(lines.len(), 2);
    assert_eq!((lines[0].line, lines[0].author.as_str()), (4, "One"));
    assert_eq!((lines[1].line, lines[1].author.as_str()), (5, ""));
    assert_eq!(lines[1].commit, "bbbbbbbbbbbb");
}

#[test]
fn lines_follow_str_lines() {
    let lines: Vec<String> = lines_of("a\r\nb\n\nc\r")
        .into_iter()
        .map(|l| l.into_iter().collect())
        .collect();
    assert_eq!(lines, vec!["a", "b", "", "c\r"]);
}

#[test]
fn the_repository_root_is_the_trimmed_answer() {
    assert_eq!(repo_root(ok("/home/me/repo\n")), Some("/home/me/repo".to_string()));
    assert_eq!(repo_root(ok("  \n")), None);
    assert_eq!(repo_root(failed()), None);
    assert_eq!(repo_root(GitOutput { status: Some(0), stdout: vec![0xff] }), None);
}

#[test]
fn head_is_a_branch_a_detached_commit_or_unborn() {
    assert_eq!(head_label(Some(ok("main\n")), Some(ok("abc\n")), None), Some(HeadLabel::Branch("main".into())));
    assert_eq!(head_label(Some(failed()), Some(failed()), None), Some(HeadLabel::Unborn));
    assert_eq!(
        head_label(Some(failed()), Some(ok("abcdef0123\n")), Some(ok("abcdef0\n"))),
        Some(HeadLabel::Detached("abcdef0".into()))
    );
    assert_eq!(head_label(Some(ok("main\n")), None, None), None);
}

#[test]
fn the_head_blob_comes_from_the_tree_entry() {
    let entry = ok("100644 blob 0123abcd\tfile.txt\0");
    assert!(matches!(blob_object(&entry), BlobLookup::Read(ref o) if o == "0123abcd"));
    assert_eq!(head_blob(&entry, Some(ok("hello\n"))), Some("hello\n".to_string()));
    assert_eq!(head_blob(&entry, Some(failed())), None);
    assert_eq!(head_blob(&ok(""), None), Some(String::new()));
    assert_eq!(head_blob(&ok("040000 tree 0123abcd\tdir\0"), None), None);
}

#[test]
fn blame_needs_a_successful_run() {
    assert!(blame(failed()).is_none());
    let out = ok("cccccccccccccccccccccccccccccccccccccccc 1 1 1\nsummary s\n\tline\n");
    assert_eq!(blame(out).unwrap()[0].summary, "s");
}
