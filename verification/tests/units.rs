//! Unit tests for the tokenizer, the line records and their builders, the
//! classifier, and the width table, including one input per error variant.

use hyprfmt::config::Config;
use hyprfmt::config::IndentMode;
use hyprfmt::config::SpacingContext;
use hyprfmt::parse::get_file_tokens;
use hyprfmt::parse::ParseError;
use hyprfmt::parse::Rule;
use hyprfmt::parse::Token;
use hyprfmt::config::CommandRhsSpacingContext;
use hyprfmt::config::CommandRhsSpacingMode;
use hyprfmt::parsed::format::format_lines;
use hyprfmt::parsed::format::update_comment_column;
use hyprfmt::parsed::format::update_mid_column;
use hyprfmt::parsed::format::update_rhs_column;
use hyprfmt::parsed::format::Table;
use hyprfmt::parsed::format::TableError;
use hyprfmt::parsed::line::get_lines;
use hyprfmt::parsed::line::Line;
use hyprfmt::parsed::line::LineInfo;
use hyprfmt::FormatError;

fn token(rule: Rule, text: &str) -> Token {
    Token { rule, text: text.as_bytes().to_vec() }
}

#[test]
fn tokenizer_splits_statement_with_comment() {
    let tokens = get_file_tokens(&b"foo=bar # hi".to_vec()).expect("tokenizes");

    let expected = vec![
        token(Rule::VariableIdent, "foo"),
        token(Rule::VariableExpression, "bar "),
        token(Rule::CommentHashes, "# "),
        token(Rule::CommentText, "hi"),
        token(Rule::Newline, ""),
    ];
    assert_eq!(tokens, expected);
}

#[test]
fn tokenizer_marks_statements_inside_categories_as_binds() {
    let tokens = get_file_tokens(&b"c {\nfoo=bar\n}".to_vec()).expect("tokenizes");

    let expected = vec![
        token(Rule::CategoryIdent, "c "),
        token(Rule::Newline, ""),
        token(Rule::BindIdent, "foo"),
        token(Rule::BindRhs, "bar"),
        token(Rule::Newline, ""),
        token(Rule::CategoryEnd, ""),
        token(Rule::Newline, ""),
    ];
    assert_eq!(tokens, expected);
}

#[test]
fn tokenizer_keeps_hash_run_of_standalone_comment() {
    let tokens = get_file_tokens(&b"### note ###".to_vec()).expect("tokenizes");

    let expected = vec![
        token(Rule::CommentHashes, "### "),
        token(Rule::CommentText, "note ###"),
        token(Rule::Newline, ""),
    ];
    assert_eq!(tokens, expected);
}

#[test]
fn tokenizer_rejects_line_without_operator() {
    let r = get_file_tokens(&b"just a word".to_vec());

    assert_eq!(r, Err(ParseError::InvalidInput(1)));
}

#[test]
fn tokenizer_rejects_unmatched_close() {
    let r = get_file_tokens(&b"}\n".to_vec());

    assert_eq!(r, Err(ParseError::InvalidInput(1)));
}

#[test]
fn tokenizer_rejects_unclosed_category() {
    let r = get_file_tokens(&b"a {\n".to_vec());

    assert_eq!(r, Err(ParseError::InvalidInput(2)));
}

#[test]
fn classifier_builds_grouped_records() {
    let tokens = get_file_tokens(&b"foo=bar # hi".to_vec()).expect("tokenizes");
    let lines = get_lines(&tokens).expect("classifies");

    let expected = vec![Line::Sectioned(LineInfo {
        category_id: None,
        comment_hashes: Some(b"# ".to_vec()),
        comment_text: Some(b"hi".to_vec()),
        group_id: Some(0),
        indent: 0,
        lhs: b"foo".to_vec(),
        rhs: Some(b"bar".to_vec()),
    })];
    assert_eq!(lines, expected);
}

#[test]
fn classifier_advances_group_across_blank_line() {
    let tokens = get_file_tokens(&b"a=1\n\nb=2\n".to_vec()).expect("tokenizes");
    let lines = get_lines(&tokens).expect("classifies");

    assert_eq!(lines.len(), 3);
    let a = lines[0].as_groupable().expect("statement");
    assert!(matches!(lines[1], Line::Newline));
    let b = lines[2].as_groupable().expect("statement");
    assert_eq!(a.group_id, Some(0));
    assert_eq!(b.group_id, Some(1));
}

#[test]
fn classifier_numbers_sibling_categories() {
    let tokens = get_file_tokens(&b"a {\nx=1\n}\nb {\ny=2\n}\n".to_vec()).expect("tokenizes");
    let lines = get_lines(&tokens).expect("classifies");

    let mut category_ids = Vec::new();
    for line in &lines {
        if let Line::Sectioned(info) = line {
            category_ids.push(info.category_id);
        }
    }
    assert_eq!(category_ids, vec![Some(0), Some(1)]);
}

#[test]
fn classifier_rejects_rhs_without_statement() {
    let tokens = vec![token(Rule::BindRhs, "x")];
    let r = get_lines(&tokens);

    assert_eq!(r, Err(ParseError::UnexpectedToken(0)));
}

#[test]
fn classifier_rejects_comment_body_without_line() {
    let tokens = vec![token(Rule::CommentText, "x")];
    let r = get_lines(&tokens);

    assert_eq!(r, Err(ParseError::UnexpectedToken(0)));
}

#[test]
fn classifier_rejects_close_at_depth_zero() {
    let tokens = vec![token(Rule::CategoryEnd, "")];
    let r = get_lines(&tokens);

    assert_eq!(r, Err(ParseError::UnbalancedCategoryEnd(0)));
}

#[test]
fn classifier_rejects_nesting_beyond_supported_depth() {
    let mut input = String::new();
    for _ in 0..256 {
        input.push_str("a {\n");
    }
    for _ in 0..256 {
        input.push_str("}\n");
    }
    let r = hyprfmt::parse(Config::default(), &input.into_bytes());

    assert!(matches!(r, Err(FormatError::Parse(ParseError::NestingTooDeep(_)))));
}

#[test]
fn deepest_supported_nesting_still_formats() {
    let mut input = String::new();
    for _ in 0..255 {
        input.push_str("a {\n");
    }
    for _ in 0..255 {
        input.push_str("}\n");
    }
    let r = hyprfmt::parse(Config::default(), &input.into_bytes());

    assert!(r.is_ok());
}

#[test]
fn comment_constructor_keeps_marker_as_lhs() {
    let line = Line::comment(7, 0, b"###".to_vec());

    let info = line.as_groupable().expect("comments are groupable");
    assert_eq!(info.lhs, b"###".to_vec());
    // Top-level lines belong to no category scope.
    assert_eq!(info.category_id, None);
    assert!(line.as_sectionable().is_none());
}

#[test]
fn bind_constructor_keeps_category_only_when_nested() {
    let nested = Line::bind(3, 2, b"x".to_vec());
    let top = Line::bind(3, 0, b"x".to_vec());

    assert_eq!(nested.as_sectionable().expect("statement").category_id, Some(3));
    assert_eq!(top.as_sectionable().expect("statement").category_id, None);
}

#[test]
fn setters_fill_record_fields() {
    let mut line = Line::assignment(b"foo".to_vec());
    line.set_rhs(b"bar".to_vec());
    line.set_comment_hashes(b"# ".to_vec());
    line.set_comment_text(b"note".to_vec());
    line.set_group_id(4);

    let info = line.as_sectionable().expect("statement");
    assert_eq!(info.rhs, Some(b"bar".to_vec()));
    assert_eq!(info.comment_hashes, Some(b"# ".to_vec()));
    assert_eq!(info.comment_text, Some(b"note".to_vec()));
    assert_eq!(info.group_id, Some(4));
}

#[test]
fn all_space_comment_body_is_discarded() {
    let mut line = Line::assignment(b"foo".to_vec());
    line.set_comment_text(b"   ".to_vec());

    let info = line.as_sectionable().expect("statement");
    assert_eq!(info.comment_text, None);
}

#[test]
fn category_end_lhs_is_the_brace() {
    let line = Line::category_end(0, 1);

    match line {
        Line::CategoryEnd(info) => {
            assert_eq!(info.lhs, b"}".to_vec());
            assert_eq!(info.indent, 1);
        },
        _ => panic!("expected a category end"),
    }
}

#[test]
fn indent_mode_strings() {
    assert_eq!(IndentMode::Tabs.into_str(), "\t");
    assert_eq!(IndentMode::Spaces.into_str(), " ");
}

#[test]
fn table_pads_to_block_width() {
    let mut ab = Line::assignment(b"ab".to_vec());
    ab.set_group_id(0);
    let mut wxyz = Line::assignment(b"wxyz".to_vec());
    wxyz.set_group_id(0);
    let mut table = Table::new(Config::default(), vec![ab, wxyz]);
    table.set_next_grouping_info();

    let probe = LineInfo {
        category_id: None,
        comment_hashes: None,
        comment_text: None,
        group_id: Some(0),
        indent: 0,
        lhs: Vec::new(),
        rhs: None,
    };
    table.append_spaces(SpacingContext::Block, &probe, 0).expect("pads");
    table.append_to_row(0, &b"!".to_vec()).expect("appends");

    let out = table.format();
    assert_eq!(String::from_utf8(out).expect("text"), "ab  !\nwxyz\n");
}

#[test]
fn append_spaces_needs_width_tables() {
    let mut table = Table::new(Config::default(), vec![Line::assignment(b"a".to_vec())]);
    let probe = LineInfo {
        category_id: None,
        comment_hashes: None,
        comment_text: None,
        group_id: Some(0),
        indent: 0,
        lhs: Vec::new(),
        rhs: None,
    };

    let r = table.append_spaces(SpacingContext::Block, &probe, 0);

    assert_eq!(r, Err(TableError::MissingGroupingInfo));
}

#[test]
fn append_to_row_rejects_bad_index() {
    let mut table = Table::new(Config::default(), vec![Line::Newline]);

    let r = table.append_to_row(9, &b"x".to_vec());

    assert_eq!(r, Err(TableError::InvalidIndex(9)));
}

#[test]
fn format_trims_trailing_spaces_per_row() {
    let mut table = Table::new(Config::default(), vec![Line::assignment(b"a".to_vec())]);
    table.append_to_row(0, &b"   ".to_vec()).expect("appends");

    let out = table.format();
    assert_eq!(String::from_utf8(out).expect("text"), "a\n");
}

#[test]
fn format_lines_renders_rows() {
    let mut foo = Line::assignment(b"foo".to_vec());
    foo.set_rhs(b"1".to_vec());
    foo.set_group_id(0);

    let out = format_lines(vec![foo], Config::default()).expect("renders");

    assert_eq!(String::from_utf8(out).expect("text"), "foo = 1\n");
}

#[test]
fn default_config_is_two_space_category_scoped() {
    let config = Config::default();

    assert_eq!(config.indent_width, 2);
    assert_eq!(config.indent_mode, IndentMode::Spaces);
    assert_eq!(config.eq_spacing_context, SpacingContext::Category);
    assert_eq!(config.comment_spacing_context, SpacingContext::Category);
    assert_eq!(config.command_rhs_spacing_mode, CommandRhsSpacingMode::Compact);
    assert_eq!(config.command_rhs_spacing_context, CommandRhsSpacingContext::Block);
}

#[test]
fn wider_indent_width_is_applied() {
    let mut config = Config::default();
    config.indent_width = 4;

    let out = hyprfmt::parse(config, &b"c {\nx=1\n}\n".to_vec()).expect("formats");

    assert_eq!(String::from_utf8(out).expect("text"), "c {\n    x = 1\n}\n");
}

#[test]
fn running_the_passes_matches_format_lines() {
    let config = Config::default();
    let input = b"bindl=,bar # c\nbindl=;bar;baz # c\n".to_vec();
    let tokens = get_file_tokens(&input).expect("tokenizes");

    let staged = {
        let lines = get_lines(&tokens).expect("classifies");
        let mut table = Table::new(config, lines);
        update_mid_column(config, &mut table).expect("operator pass");
        update_rhs_column(&mut table).expect("right-hand-side pass");
        update_comment_column(config, &mut table).expect("comment pass");
        table.format()
    };
    let direct = {
        let lines = get_lines(&tokens).expect("classifies");
        format_lines(lines, config).expect("renders")
    };

    assert_eq!(staged, direct);
    assert_eq!(
        String::from_utf8(staged).expect("text"),
        "bindl = ,bar     # c\nbindl = ;bar;baz # c\n",
    );
}

#[test]
fn comment_pass_underflow_reports_offending_row() {
    // The nested category's brace row is wider than its category bucket,
    // whose width comes from the one short statement inside it.
    let r = hyprfmt::parse(
        Config::default(),
        &b"a {\nbbbbbbbbbbbbbb { # c\nx=1\n}\n}\n".to_vec(),
    );

    assert!(matches!(r, Err(FormatError::Table(TableError::WidthUnderflow(_)))));
}
