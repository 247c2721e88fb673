use nvimglsl::editcore::key::{parse, Code, Key, Named};
use nvimglsl::keymap::{Keymap, Match, Rhs};
use nvimglsl::luaconf::Mapping;

/// The mappings and the leader a config with `mapleader = " "` gives.
fn config(mappings: &[(&str, &str, &str)]) -> (Vec<Mapping>, String) {
    let list = mappings
        .iter()
        .map(|(mode, lhs, rhs)| Mapping {
            mode: mode.to_string(),
            lhs: lhs.to_string(),
            rhs: rhs.to_string(),
        })
        .collect();
    (list, " ".to_string())
}

fn keymap(mappings: &[(&str, &str, &str)]) -> Keymap {
    let (list, leader) = config(mappings);
    Keymap::from_mappings(&list, &leader)
}

#[test]
fn keys_and_commands_are_told_apart() {
    let keymap = keymap(&[
        ("n", "Y", "y$"),
        ("n", "<space>o", "<cmd>Telescope find_files<cr>"),
    ]);
    assert_eq!(
        keymap.lookup('n', &parse("Y")),
        Match::Exact(&Rhs::Keys(parse("y$")))
    );
    assert_eq!(
        keymap.lookup('n', &parse(" o")),
        Match::Exact(&Rhs::Command("Telescope find_files".into()))
    );
}

#[test]
fn a_shorter_mapping_waits_for_a_longer_one_that_starts_the_same_way() {
    let keymap = keymap(&[
        ("n", "<Space>", "<NOP>"),
        ("n", "<space>o", "<cmd>Telescope find_files<cr>"),
    ]);
    assert_eq!(keymap.lookup('n', &parse(" ")), Match::Prefix);
    assert!(matches!(
        keymap.lookup('n', &parse(" o")),
        Match::Exact(Rhs::Command(_))
    ));
    assert_eq!(keymap.lookup('n', &parse(" z")), Match::NoMatch);
}

#[test]
fn s_and_ss_both_exist_so_s_alone_has_to_wait() {
    let keymap = keymap(&[
        ("n", "s", "<cmd>lua require(\"substitute\").eol()<CR>"),
        ("n", "ss", "<cmd>lua require(\"substitute\").line()<CR>"),
    ]);
    assert_eq!(keymap.lookup('n', &parse("s")), Match::Prefix);
    assert!(matches!(keymap.lookup('n', &parse("ss")), Match::Exact(_)));
}

#[test]
fn the_leader_is_expanded_from_the_config_not_assumed() {
    let keymap = keymap(&[("n", "<Leader>q", "<cmd>q<CR>")]);
    assert!(matches!(
        keymap.lookup('n', &parse(" q")),
        Match::Exact(Rhs::Command(_))
    ));

    let (backslash, _) = config(&[("n", "<Leader>q", "<cmd>q<CR>")]);
    let keymap = Keymap::from_mappings(&backslash, "\\");
    assert!(matches!(
        keymap.lookup('n', &parse("\\q")),
        Match::Exact(Rhs::Command(_))
    ));
}

#[test]
fn x_mode_lands_on_visual() {
    let keymap = keymap(&[("x", "S", "<cmd>lua sub()<CR>")]);
    assert!(matches!(keymap.lookup('v', &parse("S")), Match::Exact(_)));
}

#[test]
fn a_repeated_left_hand_side_takes_the_last_one() {
    let keymap = keymap(&[
        ("n", "<Leader>h", "<cmd>BufferPrevious<CR>"),
        ("n", "<leader>h", "<cmd>Telescope neoclip plus<CR>"),
    ]);
    assert_eq!(
        keymap.lookup('n', &parse(" h")),
        Match::Exact(&Rhs::Command("Telescope neoclip plus".into()))
    );
    assert_eq!(keymap.len(), 1);
}

#[test]
fn nop_is_a_mapping_to_nothing_rather_than_an_absent_one() {
    let keymap = keymap(&[("n", "<Space>", "<NOP>")]);
    assert_eq!(keymap.lookup('n', &parse(" ")), Match::Exact(&Rhs::Nothing));
}

#[test]
fn a_named_key_on_the_left_is_one_key() {
    let keymap = keymap(&[("n", "<tab>h", "<C-w>h")]);
    assert_eq!(keymap.lookup('n', &[Key::named(Named::Tab)]), Match::Prefix);
    let keys = [Key::named(Named::Tab), Key::char('h')];
    assert!(matches!(keymap.lookup('n', &keys), Match::Exact(_)));
}

#[test]
fn f_is_a_prefix_only_for_the_keys_the_config_bound() {
    let keymap = keymap(&[("n", "fj", "15j"), ("n", "fk", "15k")]);
    assert_eq!(keymap.lookup('n', &parse("f")), Match::Prefix);
    assert_eq!(keymap.lookup('n', &parse("fx")), Match::NoMatch);
    assert_eq!(
        keymap.lookup('n', &parse("fj")),
        Match::Exact(&Rhs::Keys(vec![
            Key {
                code: Code::Char('1'),
                ctrl: false,
                alt: false
            },
            Key {
                code: Code::Char('5'),
                ctrl: false,
                alt: false
            },
            Key {
                code: Code::Char('j'),
                ctrl: false,
                alt: false
            },
        ]))
    );
}

#[test]
fn modes_are_kept_apart_and_counted_per_mode() {
    let keymap = keymap(&[("nv", "Y", "y$"), ("i", "kj", "<Esc>")]);
    assert_eq!(keymap.len(), 3);
    assert!(!keymap.is_empty());
    assert!(matches!(keymap.lookup('v', &parse("Y")), Match::Exact(_)));
    assert_eq!(keymap.lookup('i', &parse("Y")), Match::NoMatch);
    assert_eq!(keymap.lookup('i', &parse("k")), Match::Prefix);
    assert!(Keymap::from_mappings(&Vec::new(), " ").is_empty());
}

#[test]
fn a_command_right_hand_side_is_told_apart_from_keys() {
    let cmd = Mapping {
        mode: "n".into(),
        lhs: "<space>o".into(),
        rhs: "<cmd>Telescope find_files<cr>".into(),
    };
    assert_eq!(cmd.command(), Some("Telescope find_files"));
    let keys = Mapping {
        mode: "n".into(),
        lhs: "Y".into(),
        rhs: "y$".into(),
    };
    assert_eq!(keys.command(), None);
}

#[test]
fn colon_commands_end_at_the_last_cr() {
    let colon = Mapping {
        mode: "n".into(),
        lhs: "<leader>e".into(),
        rhs: "  :e ~/.config/nvim/init.lua<CR>  ".into(),
    };
    assert_eq!(colon.command(), Some("e ~/.config/nvim/init.lua"));
    let unterminated = Mapping {
        mode: "n".into(),
        lhs: "x".into(),
        rhs: ":w".into(),
    };
    assert_eq!(unterminated.command(), Some(""));
    let upper = Mapping {
        mode: "n".into(),
        lhs: "x".into(),
        rhs: "<CMD>  write <CR><cr>".into(),
    };
    assert_eq!(upper.command(), Some("write"));
}
