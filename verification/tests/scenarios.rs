//! Scenario tests: small inputs with exact expected renderings, the
//! formatter's shaping rules on blank lines and braces, and formatting a
//! second time reproducing the first result.

use hyprfmt::config::Config;
use hyprfmt::config::SpacingContext;
use hyprfmt::parse;

fn run(config: Config, file: &str) -> String {
    let out = parse(config, &file.as_bytes().to_vec()).expect("error formatting");
    String::from_utf8(out).expect("output is valid text")
}

#[test]
fn file_scope_aligns_identical_statements() {
    let mut config = Config::default();
    config.eq_spacing_context = SpacingContext::File;
    config.comment_spacing_context = SpacingContext::File;

    let actual = run(config, "foo=bar\nfoo=bar  \n");

    assert_eq!(actual, "foo = bar\nfoo = bar\n");
}

#[test]
fn block_scope_aligns_comments_to_longest_statement() {
    let mut config = Config::default();
    config.eq_spacing_context = SpacingContext::Block;
    config.comment_spacing_context = SpacingContext::Block;

    let actual = run(config, "bindl=,bar # comment\nbindl=;bar;baz # comment\n");

    // Both comments start one space past the longer statement.
    assert_eq!(actual, "bindl = ,bar     # comment\nbindl = ;bar;baz # comment\n");
}

#[test]
fn two_line_category_indents_and_spaces() {
    let config = Config::default();

    let actual = run(config, "ident {\nsomething=x # c\n}");

    assert_eq!(actual, "ident {\n  something = x # c\n}\n");
}

#[test]
fn blank_runs_collapse_to_two() {
    let config = Config::default();

    let actual = run(config, "a=1\n\n\n\n\n\nb=2\n");

    assert_eq!(actual, "a = 1\n\n\nb = 2\n");
}

#[test]
fn no_blank_survives_after_opening_brace() {
    let config = Config::default();

    let actual = run(config, "c {\n\n\nx=1\n}\n");

    assert_eq!(actual, "c {\n  x = 1\n}\n");
}

#[test]
fn trailing_blanks_are_trimmed() {
    let config = Config::default();

    let actual = run(config, "a=1\n\n\n\n");

    assert_eq!(actual, "a = 1\n");
}

#[test]
fn blank_inserted_after_category_close() {
    let config = Config::default();

    let actual = run(config, "c {\nx=1\n}\na=2\n");

    assert_eq!(actual, "c {\n  x = 1\n}\n\na = 2\n");
}

#[test]
fn blank_inserted_before_category_after_statement() {
    let config = Config::default();

    let actual = run(config, "a=2\nc {\nx=1\n}\n");

    assert_eq!(actual, "a = 2\n\nc {\n  x = 1\n}\n");
}

#[test]
fn comment_stays_attached_to_category() {
    let config = Config::default();

    let actual = run(config, "a=2\n# about c\nc {\nx=1\n}\n");

    assert_eq!(actual, "a = 2\n# about c\nc {\n  x = 1\n}\n");
}

#[test]
fn category_brace_lines_keep_trailing_comments() {
    let config = Config::default();

    let actual = run(config, "a {\nb { # open\nsomething=x\n} # close\n}\n");

    // The statement row is the widest of its category, so the brace rows
    // pad out to it before their comments.
    assert_eq!(
        actual,
        "a {\n  b {             # open\n    something = x\n  }               # close\n}\n",
    );
}

#[test]
fn double_hash_escapes_inside_right_hand_side() {
    let config = Config::default();

    let actual = run(config, "bind=,a,##x,$d # wow\n");

    assert_eq!(actual, "bind = ,a,##x,$d # wow\n");
}

#[test]
fn empty_input_renders_one_newline() {
    let config = Config::default();

    let actual = run(config, "");

    assert_eq!(actual, "\n");
}

#[test]
fn tabs_indent_mode_uses_tab_characters() {
    let mut config = Config::default();
    config.indent_mode = hyprfmt::config::IndentMode::Tabs;
    config.indent_width = 1;

    let actual = run(config, "c {\nx=1\n}\n");

    assert_eq!(actual, "c {\n\tx = 1\n}\n");
}

fn all_context_configs() -> Vec<Config> {
    let contexts = [SpacingContext::Block, SpacingContext::Category, SpacingContext::File];
    let mut configs = Vec::new();
    for eq in contexts {
        for comment in contexts {
            let mut config = Config::default();
            config.eq_spacing_context = eq;
            config.comment_spacing_context = comment;
            configs.push(config);
        }
    }
    configs
}

#[test]
fn formatting_is_idempotent_on_scenarios() {
    let inputs = [
        "foo=bar\nfoo=bar  \n",
        "bindl=,bar # comment\nbindl=;bar;baz # comment\n",
        "ident {\nsomething=x # c\n}",
        "a=1\n\n\n\nb=2\nc {\nx=1\nd {\ny=2 # deep\n}\n}\n# tail\n",
        "bind=,a,##x,$d # wow\n",
    ];
    for config in all_context_configs() {
        for input in inputs {
            let once = run(config, input);
            let twice = run(config, &once);
            assert_eq!(once, twice, "not idempotent for {input:?}");
        }
    }
}
