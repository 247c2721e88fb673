use nvimglsl::ignore::IgnoreRules;

const ROOT: &str = "/tmp/nvimglsl-ignore-root";

fn at(rel: &str) -> String {
    format!("{ROOT}/{rel}")
}

#[test]
fn builtin_noise_is_always_hidden() {
    let rules = IgnoreRules::empty(ROOT.to_string());
    assert!(rules.ignored(&at("target"), true));
    assert!(rules.ignored(&at("src/target"), true));
    assert!(!rules.ignored(&at("src/main.rs"), false));
}

#[test]
fn gitignore_subset_honours_last_match_and_negation() {
    let text = "# comment\n*.log\n!important.log\n/build/\n/src/**/tmp?.rs\n";
    let rules = IgnoreRules::load(ROOT.to_string(), Some(text.to_string()));
    assert!(rules.ignored(&at("notes/debug.log"), false));
    assert!(!rules.ignored(&at("important.log"), false));
    assert!(rules.ignored(&at("build"), true));
    assert!(!rules.ignored(&at("docs/build"), true));
    assert!(rules.ignored(&at("src/a/b/tmp1.rs"), false));
    assert!(!rules.ignored(&at("src/a/b/tmp-long.rs"), false));
}

#[test]
fn a_directory_rule_leaves_files_of_that_name_alone() {
    let rules = IgnoreRules::load(ROOT.to_string(), Some("cache/\n".to_string()));
    assert!(rules.ignored(&at("cache"), true));
    assert!(!rules.ignored(&at("cache"), false));
}

#[test]
fn paths_outside_the_root_or_going_up_show() {
    let rules = IgnoreRules::load(ROOT.to_string(), Some("*.tmp\n".to_string()));
    assert!(!rules.ignored("/elsewhere/x.tmp", false));
    assert!(!rules.ignored(&at("../x.tmp"), false));
    assert!(rules.ignored(&at("./a/./b.tmp"), false));
}

#[test]
fn without_a_gitignore_only_the_builtin_names_hide() {
    let rules = IgnoreRules::load(ROOT.to_string(), None);
    assert!(!rules.ignored(&at("debug.log"), false));
    assert!(rules.ignored(&at("node_modules"), true));
}
