use nvimglsl::run::{AnsiColor, AnsiDecoder, Origin, Stream};

#[test]
fn sgr_decodes_the_allowed_roles_and_drops_other_csi() {
    let mut decoder = AnsiDecoder::new(Stream::Stdout);
    let mut out = decoder.push(b"a\x1b[31mred\x1b[22m still-red\x1b[39m plain\x1b[2Jx");
    out.extend(decoder.finish());
    assert_eq!(out[0].text, "a");
    assert_eq!(out[1].text, "red");
    assert_eq!(out[1].role.color, Some(AnsiColor::Red));
    assert_eq!(out[2].role.color, Some(AnsiColor::Red));
    assert_eq!(out[3].text, " plain");
    assert_eq!(out[3].role.color, None);
    assert_eq!(out[4].text, "x");
}

#[test]
fn bold_and_reset_and_unknown_codes() {
    let mut decoder = AnsiDecoder::new(Stream::Stderr);
    let mut out = decoder.push(b"\x1b[1;94;?m!\x1b[m.\x1b[5m?");
    out.extend(decoder.finish());
    assert_eq!(out.len(), 3);
    assert!(out[0].role.bold);
    assert_eq!(out[0].role.color, Some(AnsiColor::BrightBlue));
    assert_eq!(out[0].role.stream, Stream::Stderr);
    assert!(!out[1].role.bold);
    assert_eq!(out[1].role.color, None);
    assert_eq!(out[2].text, "?");
}

#[test]
fn osc_sequences_are_dropped() {
    let mut decoder = AnsiDecoder::new(Stream::Stdout);
    let mut out = decoder.push(b"x\x1b]0;title\x07y\x1b]2;t\x1b\\z");
    out.extend(decoder.finish());
    let texts: Vec<&str> = out.iter().map(|s| s.text.as_str()).collect();
    assert_eq!(texts, vec!["x", "y", "z"]);
}

#[test]
fn text_waits_for_the_role_to_change_or_the_end() {
    let mut decoder = AnsiDecoder::new(Stream::Stdout);
    assert!(decoder.push(b"abc").is_empty());
    let out = decoder.finish();
    assert_eq!(out[0].text, "abc");
    assert!(decoder.finish().is_empty());
}

#[test]
fn origins_name_themselves() {
    assert_eq!(Origin::OwnerKey.as_str(), "key");
    assert_eq!(Origin::OwnerExCommand.as_str(), "ex");
}
