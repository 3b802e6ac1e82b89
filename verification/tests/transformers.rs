use yfix::transformer::compress_blank::CompressBlank;
use yfix::transformer::dedent::Dedent;
use yfix::transformer::join_wrapped::{join_measured, JoinWrapped};
use yfix::transformer::strip_ansi::StripAnsi;
use yfix::transformer::strip_line_numbers::{result_warnings, strip_found, StripLineNumbers};
use yfix::transformer::strip_prompt::StripPrompt;
use yfix::transformer::strip_trailing::StripTrailing;
use yfix::transformer::{Transformer, Warning};

// compress_blank

#[test]
fn compresses_three_blank_lines_to_one() {
    let t = CompressBlank;
    let input = "a\n\n\n\nb";
    assert_eq!(t.transform(input).unwrap(), "a\n\nb");
}

#[test]
fn compresses_four_blank_lines_to_one() {
    let t = CompressBlank;
    let input = "a\n\n\n\n\nb";
    assert_eq!(t.transform(input).unwrap(), "a\n\nb");
}

#[test]
fn keeps_two_blank_lines_unchanged() {
    let t = CompressBlank;
    let input = "a\n\n\nb";
    assert_eq!(t.transform(input).unwrap(), "a\n\n\nb");
}

#[test]
fn keeps_one_blank_line_unchanged() {
    let t = CompressBlank;
    let input = "a\n\nb";
    assert_eq!(t.transform(input).unwrap(), "a\n\nb");
}

#[test]
fn compress_blank_empties_whitespace_lines_and_keeps_final_newline() {
    let t = CompressBlank;
    assert_eq!(t.transform("a\n  \n\t\n \n b\n").unwrap(), "a\n\n b\n");
    assert_eq!(t.transform("a\n \nb").unwrap(), "a\n\nb");
    assert_eq!(t.transform("").unwrap(), "");
    assert_eq!(t.name(), "compress_blank");
}

// dedent

fn dd() -> Dedent {
    Dedent
}

#[test]
fn line1_without_indent_is_untouched() {
    let input = "first line\n  second\n  third";
    let result = dd().transform(input).unwrap();
    assert_eq!(result, "first line\nsecond\nthird");
}

#[test]
fn line1_with_same_indent_is_also_dedented() {
    let input = "  TMUX          = foo\n  TMUX_PANE     = bar\n  STY           = baz";
    let result = dd().transform(input).unwrap();
    assert_eq!(result, "TMUX          = foo\nTMUX_PANE     = bar\nSTY           = baz");
}

#[test]
fn first_line_without_indent_is_untouched() {
    let input = "// comment\n  libc::mmap(\n      ptr,\n  )";
    let result = dd().transform(input).unwrap();
    assert_eq!(result, "// comment\nlibc::mmap(\n    ptr,\n)");
}

#[test]
fn empty_first_line_treated_as_line_1() {
    let input = "\n  hello\n  world";
    let result = dd().transform(input).unwrap();
    assert_eq!(result, "\nhello\nworld");
}

#[test]
fn preserves_relative_indent() {
    let input = "fn foo() {\n    let x = 1;\n        let y = 2;\n}";
    let result = dd().transform(input).unwrap();
    assert_eq!(result, input);
}

#[test]
fn dedents_when_all_lines_indented() {
    let input = "fn foo() {\n    let x = 1;\n        let y = 2;\n    }";
    let result = dd().transform(input).unwrap();
    assert_eq!(result, "fn foo() {\nlet x = 1;\n    let y = 2;\n}");
}

#[test]
fn line1_with_more_indent_is_also_dedented() {
    let input = "    header\n  body\n  footer";
    let result = dd().transform(input).unwrap();
    assert_eq!(result, "  header\nbody\nfooter");
}

#[test]
fn single_line_unchanged() {
    let input = "  hello";
    let result = dd().transform(input).unwrap();
    assert_eq!(result, "  hello");
}

#[test]
fn tab_indent_dedented() {
    let input = "first\n\ttab\n\tthird";
    let result = dd().transform(input).unwrap();
    assert_eq!(result, "first\ntab\nthird");
    let input = "first\n\tsecond\n\tthird";
    let result = dd().transform(input).unwrap();
    assert_eq!(result, "first\nsecond\nthird");
}

#[test]
fn mixed_tab_space_uses_min_chars() {
    let input = "header\n\ttab line\n  space line";
    let result = dd().transform(input).unwrap();
    assert_eq!(result, "header\ntab line\n space line");
}

#[test]
fn dedent_blank_later_lines_become_empty_and_final_newline_kept() {
    let input = "head\n    a\n   \n    b\n";
    assert_eq!(dd().transform(input).unwrap(), "head\na\n\nb\n");
    // the CRLF text is returned unchanged where nothing is dedented
    assert_eq!(dd().transform("a\r\nb").unwrap(), "a\r\nb");
    // unicode white space counts as indentation
    assert_eq!(dd().transform("x\n\u{3000}y\n\u{3000}z").unwrap(), "x\ny\nz");
}

// join_wrapped

#[test]
fn joins_wrapped_ascii_line() {
    let t = JoinWrapped { wrap_width: 20 };
    let input = "12345678901234567890\ncontinuation";
    assert_eq!(t.transform(input).unwrap(), "12345678901234567890 continuation");
}

#[test]
fn does_not_join_when_next_line_empty() {
    let t = JoinWrapped { wrap_width: 20 };
    let input = "12345678901234567890\n\nnext paragraph";
    let result = t.transform(input).unwrap();
    assert!(result.contains('\n'));
}

#[test]
fn does_not_join_short_line() {
    let t = JoinWrapped { wrap_width: 80 };
    let input = "short line\nnext line";
    assert_eq!(t.transform(input).unwrap(), "short line\nnext line");
}

#[test]
fn joins_cjk_line_at_width_minus_one() {
    let t = JoinWrapped { wrap_width: 21 };
    let input = "あああああああああああ\ncontinuation";
    let result = t.transform(input).unwrap();
    assert!(result.starts_with("あああああああああああcontinuation"));
}

#[test]
fn joins_with_tolerance_of_2() {
    let t = JoinWrapped { wrap_width: 20 };
    let input = "123456789012345678\ncontinuation";
    assert_eq!(t.transform(input).unwrap(), "123456789012345678 continuation");
}

#[test]
fn inserts_space_at_join_seam() {
    let t = JoinWrapped { wrap_width: 20 };
    let input = "12345678901234567890\n   continuation";
    assert_eq!(t.transform(input).unwrap(), "12345678901234567890 continuation");
}

#[test]
fn no_extra_space_when_line_ends_with_space() {
    let t = JoinWrapped { wrap_width: 20 };
    let input = "1234567890123456789 \n   continuation";
    assert_eq!(t.transform(input).unwrap(), "1234567890123456789 continuation");
}

#[test]
fn no_space_between_cjk_chars() {
    let t = JoinWrapped { wrap_width: 20 };
    let input = "ああああああああああ\nいいいい";
    assert_eq!(t.transform(input).unwrap(), "ああああああああああいいいい");
}

#[test]
fn no_space_when_cjk_meets_ascii() {
    let t = JoinWrapped { wrap_width: 20 };
    let input = "ああああああああああ\ncontinuation";
    assert_eq!(t.transform(input).unwrap(), "ああああああああああcontinuation");
}

#[test]
fn no_space_when_ascii_meets_cjk() {
    let t = JoinWrapped { wrap_width: 20 };
    let input = "12345678901234567890\nああ";
    assert_eq!(t.transform(input).unwrap(), "12345678901234567890ああ");
}

#[test]
fn joins_multiple_wraps() {
    let t = JoinWrapped { wrap_width: 10 };
    let input = "1234567890\nabcdefghij\nklmnopqrst\nend";
    assert_eq!(t.transform(input).unwrap(), "1234567890 abcdefghij klmnopqrst end");
}

#[test]
fn joins_multiple_wraps_then_stops() {
    let t = JoinWrapped { wrap_width: 10 };
    let input = "1234567890\nabcdefghij\nend\nshort";
    assert_eq!(t.transform(input).unwrap(), "1234567890 abcdefghij end\nshort");
}

#[test]
fn joins_word_wrapped_continuations() {
    let t = JoinWrapped { wrap_width: 20 };
    let input = "12345678901234567890\nword wrapped at\nboundary end";
    assert_eq!(t.transform(input).unwrap(), "12345678901234567890 word wrapped at boundary end");
}

#[test]
fn stops_at_very_short_continuation() {
    let t = JoinWrapped { wrap_width: 20 };
    let input = "12345678901234567890\nword wrap\nshrt\nnext line";
    assert_eq!(t.transform(input).unwrap(), "12345678901234567890 word wrap\nshrt\nnext line");
}

#[test]
fn diagnostics_near_miss() {
    let t = JoinWrapped { wrap_width: 20 };
    let input = "123456789012345\nnext line";
    let (_, diag) = t.transform_with_diagnostics(input).unwrap();
    assert!(diag.warnings.iter().any(|w| matches!(w, Warning::JoinNearMiss { .. })));
}

#[test]
fn diagnostics_relaxed_used() {
    let t = JoinWrapped { wrap_width: 20 };
    let input = "12345678901234567890\nword wrapped at\nend";
    let (_, diag) = t.transform_with_diagnostics(input).unwrap();
    assert!(diag.warnings.iter().any(|w| matches!(w, Warning::JoinRelaxedUsed { .. })));
}

#[test]
fn join_warnings_carry_exact_values() {
    let t = JoinWrapped { wrap_width: 20 };
    let (out, diag) = t.transform_with_diagnostics("123456789012345\nnext line").unwrap();
    assert_eq!(out, "123456789012345\nnext line");
    assert_eq!(diag.warnings, vec![Warning::JoinNearMiss { line_index: 0, width: 15, wrap_width: 20 }]);
    let (out, diag) =
        t.transform_with_diagnostics("12345678901234567890\nword wrapped at\nend").unwrap();
    assert_eq!(out, "12345678901234567890 word wrapped at end");
    assert_eq!(diag.warnings, vec![Warning::JoinRelaxedUsed { line_index: 1, width: 15 }]);
    assert_eq!(t.name(), "join_wrapped");
}

#[test]
fn join_keeps_final_newline_and_handles_tiny_widths() {
    let t = JoinWrapped { wrap_width: 20 };
    assert_eq!(t.transform("12345678901234567890\nmore\n").unwrap(), "12345678901234567890 more\n");
    // with a width of 0 every line, even an empty one, followed by a non-empty line starts a join
    let t = JoinWrapped { wrap_width: 0 };
    assert_eq!(t.transform("a\nb\n\nc").unwrap(), "a b\n c");
}

// strip_ansi

#[test]
fn strips_color_codes() {
    let t = StripAnsi;
    assert_eq!(t.transform("\x1b[31mHello\x1b[0m World").unwrap(), "Hello World");
}

#[test]
fn leaves_plain_text_unchanged() {
    let t = StripAnsi;
    assert_eq!(t.transform("hello world").unwrap(), "hello world");
}

#[test]
fn strips_cursor_movement() {
    let t = StripAnsi;
    assert_eq!(t.transform("\x1b[2K\x1b[1Ahello").unwrap(), "hello");
    assert_eq!(t.name(), "strip_ansi");
}

// strip_line_numbers

#[test]
fn strips_when_majority_match() {
    let t = StripLineNumbers;
    let input = "      154 ### tmux設定\n      155\n      156 ```tmux\n      157 # ~/.tmux.conf\n      158 set -g allow-passthrough on\n      159 ```\n      160\n";
    let result = t.transform(input).unwrap();
    assert!(result.contains("### tmux設定"));
    assert!(!result.contains("154"));
    assert!(!result.contains("158"));
}

#[test]
fn noop_when_minority_match() {
    let t = StripLineNumbers;
    let input = "  1 hello\nworld\nfoo\nbar";
    assert_eq!(t.transform(input).unwrap(), input);
}

#[test]
fn keeps_non_matching_lines_as_is() {
    let t = StripLineNumbers;
    let input = "  1 hello\n  2 world\n  3 foo\nno number here";
    let result = t.transform(input).unwrap();
    assert!(result.contains("hello"));
    assert!(result.contains("no number here"));
    assert!(!result.contains("  1 "));
}

#[test]
fn empty_lines_ignored_in_threshold() {
    let t = StripLineNumbers;
    let input = "  1 hello\n\n  2 world\n\n  3 foo\n";
    let result = t.transform(input).unwrap();
    assert!(!result.contains("  1 "));
    assert!(result.contains("hello"));
}

#[test]
fn does_not_strip_git_hashes() {
    let t = StripLineNumbers;
    let input = "00fe40a feat: add debug mode\n6677c2a feat: implement width\n771121f feat: implement OutputTarget\na82a732 feat: add Config";
    assert_eq!(t.transform(input).unwrap(), input);
}

#[test]
fn diagnostics_borderline() {
    let t = StripLineNumbers;
    let input = "  1 hello\n  2 world\n  3 foo\nno number\nalso no number";
    let (_, diag) = t.transform_with_diagnostics(input).unwrap();
    assert!(diag.warnings.iter().any(|w| matches!(w, Warning::LineNumbersBorderline { .. })));
}

#[test]
fn diagnostics_partial_gutter() {
    let t = StripLineNumbers;
    let input = "      94 assert!(true);\n      95 assert!(false);\n         continuation line";
    let (_, diag) = t.transform_with_diagnostics(input).unwrap();
    assert!(diag.warnings.iter().any(|w| matches!(w, Warning::LineNumbersPartialGutter { .. })));
}

#[test]
fn line_number_results_are_exact() {
    let t = StripLineNumbers;
    let (out, diag) =
        t.transform_with_diagnostics("  1 hello\n  2 world\n  3 foo\nno number\nalso no number").unwrap();
    assert_eq!(out, "hello\nworld\nfoo\nno number\nalso no number");
    assert_eq!(diag.warnings, vec![Warning::LineNumbersBorderline { match_rate_pct: 60 }]);
    let (out, diag) = t
        .transform_with_diagnostics("      94 assert!(true);\n      95 assert!(false);\n         continuation line")
        .unwrap();
    assert_eq!(out, "assert!(true);\nassert!(false);\n         continuation line");
    assert_eq!(
        diag.warnings,
        vec![
            Warning::LineNumbersBorderline { match_rate_pct: 66 },
            Warning::LineNumbersPartialGutter { gutter_width: 9, affected_lines: 1 },
        ]
    );
    // a number alone on its line is stripped with the end of the line
    assert_eq!(t.transform(" 7\n 8 x\n").unwrap(), "\nx\n");
    // nothing but blank lines: unchanged, no warnings
    let (out, diag) = t.transform_with_diagnostics("  \n\n").unwrap();
    assert_eq!(out, "  \n\n");
    assert!(diag.warnings.is_empty());
    assert_eq!(t.name(), "strip_line_numbers");
}

// strip_prompt

#[test]
fn removes_fish_prompt() {
    let t = StripPrompt;
    assert_eq!(t.transform("some output\n❯\nmore output").unwrap(), "some output\nmore output");
}

#[test]
fn removes_dollar_prompt() {
    let t = StripPrompt;
    assert_eq!(t.transform("$ \nresult").unwrap(), "result");
}

#[test]
fn keeps_line_with_content_after_prompt() {
    let t = StripPrompt;
    assert_eq!(t.transform("$ ls -la\nresult").unwrap(), "$ ls -la\nresult");
}

#[test]
fn does_not_remove_markdown_heading() {
    let t = StripPrompt;
    assert_eq!(t.transform("# This is a heading\ncontent").unwrap(), "# This is a heading\ncontent");
}

#[test]
fn removes_python_repl_prompt() {
    let t = StripPrompt;
    assert_eq!(t.transform(">>>\nresult").unwrap(), "result");
}

#[test]
fn prompt_variants_and_near_misses() {
    let t = StripPrompt;
    assert_eq!(t.transform("a\n  %  \nb\n\u{3000}>\u{3000}\nc\n").unwrap(), "a\nb\nc\n");
    assert_eq!(t.transform(">>\n$$\n>>>>\n").unwrap(), ">>\n$$\n>>>>\n");
    assert_eq!(t.name(), "strip_prompt");
}

// strip_trailing

#[test]
fn removes_trailing_spaces() {
    let t = StripTrailing;
    assert_eq!(t.transform("hello   \nworld  ").unwrap(), "hello\nworld");
}

#[test]
fn removes_trailing_blank_lines() {
    let t = StripTrailing;
    assert_eq!(t.transform("hello\n\n\n").unwrap(), "hello");
}

#[test]
fn single_line_trims_leading() {
    let t = StripTrailing;
    assert_eq!(t.transform(" hello").unwrap(), "hello");
}

#[test]
fn single_line_with_trailing_newline_trims_leading() {
    let t = StripTrailing;
    assert_eq!(t.transform(" hello\n").unwrap(), "hello");
}

#[test]
fn multi_line_preserves_leading() {
    let t = StripTrailing;
    assert_eq!(t.transform(" a\n b").unwrap(), " a\n b");
}

#[test]
fn strip_trailing_edge_cases() {
    let t = StripTrailing;
    assert_eq!(t.transform("").unwrap(), "");
    assert_eq!(t.transform("   \n  \n").unwrap(), "");
    assert_eq!(t.transform("a \r\n b \r\n\r\n").unwrap(), "a\n b");
    assert_eq!(t.name(), "strip_trailing");
}

// warnings as text

#[test]
fn warning_descriptions() {
    assert_eq!(
        Warning::LineNumbersBorderline { match_rate_pct: 55 }.to_string(),
        "line_numbers_borderline: match_rate=55%"
    );
    assert_eq!(
        Warning::LineNumbersPartialGutter { gutter_width: 9, affected_lines: 2 }.to_string(),
        "line_numbers_partial_gutter: gutter_width=9, 2 lines affected"
    );
    assert_eq!(
        Warning::JoinNearMiss { line_index: 3, width: 15, wrap_width: 20 }.to_string(),
        "join_near_miss: line 3 width=15 (75% of wrap_width=20)"
    );
    assert_eq!(
        Warning::JoinRelaxedUsed { line_index: 0, width: 120 }.to_string(),
        "join_relaxed_used: line 0 width=120"
    );
}

#[test]
fn join_measured_follows_given_widths() {
    // The widths are taken as given: a line declared as wide as the wrap
    // width is joined with the next one, whatever it holds.
    let (out, warnings) = join_measured("ab\ncd\n", &vec![4, 2], 4);
    assert_eq!(out, "ab cd\n");
    assert!(warnings.is_empty());
    let (out, warnings) = join_measured("ab\ncd\n", &vec![1, 2], 4);
    assert_eq!(out, "ab\ncd\n");
    assert!(warnings.is_empty());
    // 7 of 10 columns: a near miss, not joined.
    let (out, warnings) = join_measured("ab\ncd", &vec![7, 2], 10);
    assert_eq!(out, "ab\ncd");
    assert_eq!(
        warnings,
        vec![Warning::JoinNearMiss { line_index: 0, width: 7, wrap_width: 10 }]
    );
    // A continuation at half the wrap width carries on, and is reported.
    let (out, warnings) = join_measured("aaaa\nbb\ncc", &vec![10, 5, 2], 10);
    assert_eq!(out, "aaaa bb cc");
    assert_eq!(warnings, vec![Warning::JoinRelaxedUsed { line_index: 1, width: 5 }]);
}

#[test]
fn strip_found_uses_given_matches() {
    let found = vec![Some("1 ".to_string()), Some("  2 ".to_string()), None];
    let r = strip_found("1 a\n  2 b\n    c\n", &found);
    assert_eq!(r.text, "a\nb\n    c\n");
    assert_eq!(r.match_rate_pct, 66);
    assert_eq!(r.gutter_width, Some(4));
    assert_eq!(r.partial_gutter_lines, 1);
    assert_eq!(
        result_warnings(&r),
        vec![
            Warning::LineNumbersBorderline { match_rate_pct: 66 },
            Warning::LineNumbersPartialGutter { gutter_width: 4, affected_lines: 1 },
        ]
    );
    // Under half the lines matched: the text stays as it is.
    let found = vec![Some("1 ".to_string()), None, None];
    let r = strip_found("1 a\nb\nc", &found);
    assert_eq!(r.text, "1 a\nb\nc");
    assert_eq!(r.match_rate_pct, 33);
    assert_eq!(r.gutter_width, None);
    assert!(result_warnings(&r).is_empty());
}

#[test]
fn line_numbers_stay_at_exactly_half() {
    // One of two non-blank lines numbered: 50%, not above it.
    let t = StripLineNumbers;
    assert_eq!(t.transform("1 a\nb").unwrap(), "1 a\nb");
    let (out, diag) = t.transform_with_diagnostics("1 a\nb").unwrap();
    assert_eq!(out, "1 a\nb");
    assert_eq!(diag.warnings, vec![Warning::LineNumbersBorderline { match_rate_pct: 50 }]);
    let r = strip_found("1 a\nb", &vec![Some("1 ".to_string()), None]);
    assert_eq!(r.text, "1 a\nb");
    assert_eq!(r.match_rate_pct, 50);
    // Two of three: above half, stripped.
    assert_eq!(t.transform("1 a\n2 b\nc").unwrap(), "a\nb\nc");
}

#[test]
fn line_number_pattern_shape() {
    let t = StripLineNumbers;
    // Digits must be followed by white space or the end of the line.
    assert_eq!(t.transform("12\n13 x\n14\ty").unwrap(), "\nx\ny");
    assert_eq!(t.transform("12a\n13b\n14c").unwrap(), "12a\n13b\n14c");
    // Unicode decimal digits count too (Arabic-Indic and fullwidth).
    assert_eq!(t.transform("\u{661} a\n\u{FF12} b").unwrap(), "a\nb");
}

#[test]
fn dedent_twice_is_dedent_once() {
    let t = Dedent;
    for input in [
        "fn main() {\n        let x = 1;\n            y();\n        }\n",
        "a\n    b\r\n      c\n",
        "head\n\t\tx\n\t\t\n\t\t\ty",
        "  one line",
    ] {
        let once = t.transform(input).unwrap();
        let twice = t.transform(&once).unwrap();
        assert_eq!(once, twice);
    }
}

#[test]
fn joining_keeps_visible_characters() {
    let visible = |s: &str| s.chars().filter(|c| !c.is_whitespace()).collect::<String>();
    let t = JoinWrapped { wrap_width: 10 };
    for input in [
        "abcdefghij\nklmnop\nqr\n",
        "0123456789\n  tail\n\nnext line\n",
        "日本語のテキスト\nつづき\n",
        "short\nlines\r\nonly",
    ] {
        let out = t.transform(input).unwrap();
        assert_eq!(visible(&out), visible(input));
    }
}

#[test]
fn join_warnings_are_near_misses_or_relaxed_joins_and_empty_lines_stay() {
    let t = JoinWrapped { wrap_width: 10 };
    let input = "aaaaaaaaaa\nbbbbb\ncc\n\n1234567\nx\n\n\nyyyyyyyyy\n\nz\n";
    let (out, diag) = t.transform_with_diagnostics(input).unwrap();
    assert!(!diag.warnings.is_empty());
    assert!(diag
        .warnings
        .iter()
        .all(|w| matches!(w, Warning::JoinNearMiss { .. } | Warning::JoinRelaxedUsed { .. })));
    let empties = |s: &str| s.lines().filter(|l| l.is_empty()).count();
    assert_eq!(empties(&out), empties(input));
    assert!(out.ends_with('\n'));
    let (out, _) = t.transform_with_diagnostics("aaaaaaaaaa\nbb").unwrap();
    assert_eq!(out, "aaaaaaaaaa bb");
}
