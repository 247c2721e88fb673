use nvimglsl::editcore::key::{parse, Code, Key, Named};

#[test]
fn a_plain_string_is_one_key_per_character() {
    let keys = parse("abc");
    assert_eq!(keys.len(), 3);
    assert_eq!(keys[0], Key::char('a'));
}

#[test]
fn named_keys_are_one_key() {
    let keys = parse("ihello<Esc>");
    assert_eq!(keys.len(), 7);
    assert_eq!(keys[6], Key::named(Named::Esc));
    assert_eq!(parse("<F5>"), vec![Key::named(Named::F(5))]);
    assert_eq!(parse("<F12>"), vec![Key::named(Named::F(12))]);
}

#[test]
fn modifiers_parse() {
    assert_eq!(parse("<C-r>"), vec![Key::ctrl('r')]);
    assert_eq!(
        parse("<C-S-x>"),
        vec![Key {
            code: Code::Char('X'),
            ctrl: true,
            alt: false
        }]
    );
    assert_eq!(parse("<c-S>"), parse("<C-s>"));
    assert_eq!(parse("<C-X>"), parse("<C-x>"));
    assert_eq!(
        parse("<M-x>"),
        vec![Key {
            code: Code::Char('x'),
            ctrl: false,
            alt: true
        }]
    );
}

#[test]
fn an_unrecognised_bracket_is_a_literal_less_than() {
    assert_eq!(
        parse("a<b"),
        vec![Key::char('a'), Key::char('<'), Key::char('b')]
    );
    assert_eq!(parse("<lt>"), vec![Key::char('<')]);
    assert_eq!(parse("<Space>"), vec![Key::char(' ')]);
}

#[test]
fn a_raw_control_character_is_not_insertable_text() {
    assert_eq!(Key::char('\n').as_text(), None);
    assert_eq!(Key::char('\r').as_text(), None);
    assert_eq!(Key::char('\t').as_text(), None);
    assert_eq!(Key::char('a').as_text(), Some('a'));
}

#[test]
fn multibyte_text_survives_parsing() {
    assert_eq!(parse("あ"), vec![Key::char('あ')]);
}

#[test]
fn function_keys_out_of_range_are_literal() {
    assert_eq!(parse("<F13>").len(), 5);
    assert_eq!(parse("<F0>").len(), 4);
    assert_eq!(parse("<f+5>"), vec![Key::named(Named::F(5))]);
    assert_eq!(parse("<CR>"), vec![Key::named(Named::Enter)]);
    assert_eq!(parse("<C-Space>"), vec![Key { code: Code::Char(' '), ctrl: true, alt: false }]);
    assert_eq!(parse("<A-Left>"), vec![Key { code: Code::Named(Named::Left), ctrl: false, alt: true }]);
}

#[test]
fn a_modified_key_is_not_text() {
    assert_eq!(Key::ctrl('a').as_text(), None);
    assert_eq!(Key::named(Named::Tab).as_text(), None);
}
