use nvimglsl::editcore::buffer::Buffer;
use nvimglsl::editcore::motion::{apply, Kind, Motion};

fn at(text: &str, cursor: (usize, usize), motion: Motion, count: usize) -> (usize, usize) {
    let buffer = Buffer::from_text(text);
    apply(&buffer, cursor, cursor.1, motion, count)
}

#[test]
fn w_stops_at_the_next_word() {
    assert_eq!(at("one two three\n", (0, 0), Motion::WordForward { big: false }, 1), (0, 4));
    assert_eq!(at("one two three\n", (0, 0), Motion::WordForward { big: false }, 2), (0, 8));
}

#[test]
#[allow(non_snake_case)]
fn w_treats_punctuation_as_its_own_word_and_W_does_not() {
    assert_eq!(at("a.b c\n", (0, 0), Motion::WordForward { big: false }, 1), (0, 1));
    assert_eq!(at("a.b c\n", (0, 0), Motion::WordForward { big: true }, 1), (0, 4));
}

#[test]
fn w_crosses_the_line_break() {
    assert_eq!(at("one\ntwo\n", (0, 1), Motion::WordForward { big: false }, 1), (1, 0));
}

#[test]
fn e_lands_on_the_last_character_of_the_word() {
    assert_eq!(at("one two\n", (0, 0), Motion::WordEnd { big: false }, 1), (0, 2));
    assert_eq!(at("one two\n", (0, 2), Motion::WordEnd { big: false }, 1), (0, 6));
}

#[test]
fn b_lands_on_the_first_character_of_the_previous_word() {
    assert_eq!(at("one two\n", (0, 5), Motion::WordBack { big: false }, 1), (0, 4));
    assert_eq!(at("one two\n", (0, 4), Motion::WordBack { big: false }, 1), (0, 0));
}

#[test]
fn e_is_inclusive_and_w_is_not() {
    assert_eq!(Motion::WordEnd { big: false }.kind(), Kind::Inclusive);
    assert_eq!(Motion::WordForward { big: false }.kind(), Kind::Exclusive);
}

#[test]
fn j_keeps_the_column_the_user_chose() {
    let buffer = Buffer::from_text("longer line\nab\nlonger line\n");
    let after_short = apply(&buffer, (0, 9), 9, Motion::Down, 1);
    assert_eq!(after_short, (1, 2));
    let back = apply(&buffer, after_short, 9, Motion::Down, 1);
    assert_eq!(back, (2, 9));
}

#[test]
fn f_and_t_differ_by_one_cell() {
    assert_eq!(at("a,b,c\n", (0, 0), Motion::FindChar { ch: ',', forward: true, till: false }, 1), (0, 1));
    assert_eq!(at("a,b,c\n", (0, 0), Motion::FindChar { ch: ',', forward: true, till: true }, 1), (0, 0));
    assert_eq!(at("a,b,c\n", (0, 0), Motion::FindChar { ch: ',', forward: true, till: false }, 2), (0, 3));
}

#[test]
fn percent_matches_the_bracket_ahead_of_the_cursor() {
    assert_eq!(at("if (a) {\n", (0, 0), Motion::MatchPair, 1), (0, 5));
    assert_eq!(at("if (a) {\n", (0, 5), Motion::MatchPair, 1), (0, 3));
}

#[test]
fn paragraph_motion_stops_on_the_blank_line() {
    assert_eq!(at("a\nb\n\nc\n", (0, 0), Motion::ParagraphForward, 1), (2, 0));
}

#[test]
fn backward_find_and_till() {
    assert_eq!(at("a,b,c\n", (0, 4), Motion::FindChar { ch: ',', forward: false, till: false }, 1), (0, 3));
    assert_eq!(at("a,b,c\n", (0, 4), Motion::FindChar { ch: ',', forward: false, till: true }, 1), (0, 4));
    assert_eq!(at("a,b,c\n", (0, 4), Motion::FindChar { ch: 'z', forward: false, till: false }, 1), (0, 4));
}

#[test]
fn brackets_match_across_lines_and_unmatched_stay() {
    assert_eq!(at("f(\n  x\n)\n", (0, 0), Motion::MatchPair, 1), (2, 0));
    assert_eq!(at("f(\n  x\n)\n", (2, 0), Motion::MatchPair, 1), (0, 1));
    assert_eq!(at("f(x\n", (0, 0), Motion::MatchPair, 1), (0, 0));
    assert_eq!(at("abc\n", (0, 1), Motion::MatchPair, 1), (0, 1));
}

#[test]
fn line_and_file_motions() {
    let text = "  one\ntwo\n   \n";
    assert_eq!(at(text, (1, 2), Motion::FirstNonBlank, 1), (1, 0));
    assert_eq!(at(text, (1, 0), Motion::FileStart, 1), (0, 2));
    assert_eq!(at(text, (0, 0), Motion::FileEnd, 1), (2, 2));
    assert_eq!(at(text, (0, 0), Motion::GotoLine(9), 1), (2, 2));
    assert_eq!(at(text, (0, 0), Motion::LineEnd, 2), (1, 3));
    assert_eq!(at(text, (0, 4), Motion::Left, 9), (0, 0));
    assert_eq!(at(text, (0, 1), Motion::Right, 99), (0, 5));
    assert_eq!(at(text, (2, 0), Motion::Up, 5), (0, 0));
    assert_eq!(at(text, (0, 3), Motion::LineStart, 1), (0, 0));
    assert_eq!(at("a\n\nb\n", (2, 0), Motion::ParagraphBack, 1), (1, 0));
}

#[test]
fn a_count_of_zero_is_one() {
    assert_eq!(at("one two three\n", (0, 0), Motion::WordForward { big: false }, 0), (0, 4));
    assert!(Motion::Down.keeps_desired_column());
    assert!(!Motion::Right.keeps_desired_column());
    assert_eq!(Motion::Up.kind(), Kind::Linewise);
    assert_eq!(Motion::FindChar { ch: 'x', forward: false, till: false }.kind(), Kind::Exclusive);
}
