use yfix::debug_log::{
    build_error_entry, build_trace_entry, debug_enabled, flag_entry, last_valid_index, next_id_after, rewrite_log,
};
use yfix::transformer::Warning;

#[test]
fn next_id_counts_on_from_the_largest() {
    assert_eq!(next_id_after(&vec![]), 1);
    assert_eq!(next_id_after(&vec![1, 2, 3]), 4);
    assert_eq!(next_id_after(&vec![7, 2]), 8);
}

#[test]
fn trace_entry_holds_the_run() {
    let e = build_trace_entry(
        "test",
        80,
        "TmuxPane".to_string(),
        false,
        vec!["tmux-buffer".to_string()],
        "hello",
        vec!["[input] 1 lines".to_string()],
        vec![Warning::LineNumbersBorderline { match_rate_pct: 55 }],
        1,
        "2024-01-01T00:00:00+00:00".to_string(),
    );
    assert_eq!(e.id, 1);
    assert_eq!(e.width, 80);
    assert_eq!(e.entry_type, "trace");
    assert_eq!(e.version, "test");
    assert_eq!(e.width_source, "TmuxPane");
    assert_eq!(e.output_targets, vec!["tmux-buffer".to_string()]);
    assert_eq!(e.input.as_deref(), Some("hello"));
    assert_eq!(e.warnings, vec![Warning::LineNumbersBorderline { match_rate_pct: 55 }]);
    assert!(e.error.is_none());
    assert!(!e.flagged);
}

#[test]
fn error_entry_holds_the_message() {
    let e = build_error_entry("v1", 100, "Columns".to_string(), true, "boom", 3, "t".to_string());
    assert_eq!(e.entry_type, "error");
    assert_eq!(e.error.as_deref(), Some("boom"));
    assert!(e.is_ssh);
    assert!(e.input.is_none());
    assert!(e.trace.is_empty());
    assert_eq!(e.id, 3);
}

#[test]
fn flagging_keeps_a_non_empty_comment() {
    let mut e = build_trace_entry("t", 80, "T".into(), false, vec![], "x", vec![], vec![], 1, "t".into());
    flag_entry(&mut e, Some("bad result"));
    assert!(e.flagged);
    assert_eq!(e.flagged_comment.as_deref(), Some("bad result"));
    let mut e = build_trace_entry("t", 80, "T".into(), false, vec![], "x", vec![], vec![], 1, "t".into());
    flag_entry(&mut e, Some(""));
    assert!(e.flagged);
    assert!(e.flagged_comment.is_none());
    flag_entry(&mut e, None);
    assert!(e.flagged_comment.is_none());
}

#[test]
fn only_the_last_valid_line_is_rewritten() {
    assert_eq!(last_valid_index(&vec![true, true, false]), Some(1));
    assert_eq!(last_valid_index(&vec![false, false]), None);
    assert_eq!(last_valid_index(&vec![]), None);
    let lines = vec!["a".to_string(), "b".to_string(), "junk".to_string()];
    assert_eq!(rewrite_log(&lines, 1, "B"), "a\nB\njunk\n");
}

#[test]
fn ids_follow_each_other() {
    let mut ids: Vec<u32> = Vec::new();
    for expected in 1..=3u32 {
        let id = next_id_after(&ids);
        assert_eq!(id, expected);
        ids.push(id);
    }
}

#[test]
fn debug_override_then_flag_file() {
    assert!(debug_enabled(Some("on"), false));
    assert!(!debug_enabled(Some("off"), true));
    assert!(debug_enabled(Some("maybe"), true));
    assert!(!debug_enabled(Some(""), false));
    assert!(debug_enabled(None, true));
    assert!(!debug_enabled(None, false));
}
