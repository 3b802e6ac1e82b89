use yfix::config::{default_true, default_width, Config, TransformerConfig};
use yfix::input::{input_source, parse_width, width_step, InputSource, WidthSource, WidthStep};
use yfix::multiplexer::Multiplexer;
use yfix::process_tree::{
    is_remote_process, parse_pid, parse_proc_status, parse_ps_line, AncestorWalk,
};

#[test]
fn default_config_has_expected_values() {
    let c = Config::default();
    assert_eq!(c.fallback_width, 80);
    assert!(c.transformers.strip_ansi);
    assert!(c.transformers.join_wrapped);
}

#[test]
fn default_config_has_skip_table_lines_enabled() {
    let c = Config::default();
    assert!(c.transformers.skip_table_lines);
}

#[test]
fn defaults_of_missing_fields() {
    assert!(default_true());
    assert_eq!(default_width(), 80);
    let t = TransformerConfig::default();
    assert!(t.strip_line_numbers && t.dedent && t.strip_trailing && t.compress_blank && t.strip_prompt);
}

#[test]
fn detect_tmux_when_tmux_set() {
    assert_eq!(Multiplexer::detect_from(true, false), Some(Multiplexer::Tmux));
}

#[test]
fn detect_screen_when_sty_set() {
    assert_eq!(Multiplexer::detect_from(false, true), Some(Multiplexer::Screen));
}

#[test]
fn detect_tmux_takes_priority_over_screen() {
    assert_eq!(Multiplexer::detect_from(true, true), Some(Multiplexer::Tmux));
}

#[test]
fn detect_none_when_neither_set() {
    assert_eq!(Multiplexer::detect_from(false, false), None);
}

#[test]
fn cli_flag_takes_priority() {
    let config = Config::default();
    let step = width_step(Some(132), &vec![], &config);
    assert_eq!(step, WidthStep::Resolved(132, WidthSource::CliFlag));
}

#[test]
fn falls_back_to_config() {
    let config = Config { fallback_width: 120, ..Config::default() };
    let step = width_step(None, &vec![None, None, None, None], &config);
    assert_eq!(step, WidthStep::Resolved(120, WidthSource::ConfigFallback));
    match step {
        WidthStep::Resolved(w, _) => assert!(w > 0),
        WidthStep::Ask(_) => unreachable!(),
    }
}

#[test]
fn width_sources_are_asked_in_order() {
    let config = Config::default();
    assert_eq!(width_step(None, &vec![], &config), WidthStep::Ask(WidthSource::Columns));
    assert_eq!(width_step(None, &vec![None], &config), WidthStep::Ask(WidthSource::TmuxPane));
    assert_eq!(width_step(None, &vec![None, None], &config), WidthStep::Ask(WidthSource::Ioctl));
    assert_eq!(width_step(None, &vec![None, None, None], &config), WidthStep::Ask(WidthSource::TputCols));
    assert_eq!(
        width_step(None, &vec![None, Some(90)], &config),
        WidthStep::Resolved(90, WidthSource::TmuxPane)
    );
    assert_eq!(
        width_step(None, &vec![Some(70), Some(90)], &config),
        WidthStep::Resolved(70, WidthSource::Columns)
    );
}

#[test]
fn parse_width_matches_std_parse() {
    for s in ["80", " 132\n", "+7", "", "+", "-3", "12a", "007", "18446744073709551615", "18446744073709551616", "\u{3000}42\u{2003}", "٣"] {
        assert_eq!(parse_width(s), s.trim().parse::<usize>().ok(), "input {:?}", s);
    }
}

#[test]
fn is_remote_process_matches_sshd() {
    assert!(is_remote_process("sshd"));
    assert!(is_remote_process("sshd-session"));
    assert!(is_remote_process("mosh-server"));
    assert!(!is_remote_process("bash"));
    assert!(!is_remote_process("tmux"));
    assert!(!is_remote_process("cargo-test"));
}

#[test]
fn remote_names_in_the_middle_and_near_misses() {
    assert!(is_remote_process("/usr/bin/mosh-server"));
    assert!(!is_remote_process("sshd2"));
    assert!(!is_remote_process("xsshd"));
    assert!(!is_remote_process("mosh-serve"));
    assert!(!is_remote_process(""));
}

#[test]
fn pid_1_terminates_walk() {
    let w = AncestorWalk::new(1);
    assert_eq!(w.pending(), None);
    assert!(!w.found());
}

#[test]
fn nonexistent_pid_returns_false() {
    let mut w = AncestorWalk::new(9_999_999);
    assert_eq!(w.pending(), Some(9_999_999));
    w.advance(None);
    assert_eq!(w.pending(), None);
    assert!(!w.found());
}

#[test]
fn walk_finds_sshd_among_ancestors() {
    // 500 (bash) -> 400 (sshd-session) : found
    let mut w = AncestorWalk::new(500);
    w.advance(Some(("bash".to_string(), 400)));
    assert_eq!(w.pending(), Some(400));
    w.advance(Some(("sshd-session".to_string(), 300)));
    assert_eq!(w.pending(), None);
    assert!(w.found());
    // a parent of 0, or a process that is its own parent, ends the walk
    let mut w = AncestorWalk::new(10);
    w.advance(Some(("bash".to_string(), 10)));
    assert!(w.pending().is_none() && !w.found());
    // reaching PID 1 ends the walk
    let mut w = AncestorWalk::new(10);
    w.advance(Some(("bash".to_string(), 1)));
    assert!(w.pending().is_none() && !w.found());
    // the name and the parent read apart: a missing name does not stop the walk
    let mut w = AncestorWalk::new(10);
    w.advance_parts(None, Some(5));
    assert_eq!(w.pending(), Some(5));
    w.advance_parts(Some("mosh-server".to_string()), None);
    assert!(w.found());
    let mut w = AncestorWalk::new(10);
    w.advance_parts(Some("zsh".to_string()), None);
    assert!(w.pending().is_none() && !w.found());
}

#[test]
fn input_priority_argument_then_pipe_then_buffer() {
    assert_eq!(input_source(true, false, Some(Multiplexer::Tmux)), Some(InputSource::Argument));
    assert_eq!(input_source(true, true, None), Some(InputSource::Argument));
    assert_eq!(input_source(false, false, Some(Multiplexer::Tmux)), Some(InputSource::Stdin));
    assert_eq!(
        input_source(false, true, Some(Multiplexer::Screen)),
        Some(InputSource::Buffer(Multiplexer::Screen))
    );
    assert_eq!(input_source(false, true, None), None);
}

#[test]
fn proc_status_gives_name_and_parent() {
    let status = "Name:\tsshd\nUmask:\t0022\nState:\tS (sleeping)\nTgid:\t812\nPid:\t812\nPPid:\t1\n";
    assert_eq!(parse_proc_status(status), Some(("sshd".to_string(), 1)));
    // The name is trimmed; lines after both are known are not read.
    let status = "Name:\t  bash \nPPid:\t 42 \nName:\tother\n";
    assert_eq!(parse_proc_status(status), Some(("bash".to_string(), 42)));
    // A parent that is not a number, or a missing line, gives nothing.
    assert_eq!(parse_proc_status("Name:\tbash\nPPid:\tx\n"), None);
    assert_eq!(parse_proc_status("Name:\tbash\n"), None);
    assert_eq!(parse_proc_status("PPid:\t3\n"), None);
    assert_eq!(parse_proc_status(""), None);
}

#[test]
fn ps_line_gives_name_and_parent() {
    assert_eq!(parse_ps_line("  sshd    1\n"), Some(("sshd".to_string(), 1)));
    assert_eq!(parse_ps_line("mosh-server 4242"), Some(("mosh-server".to_string(), 4242)));
    assert_eq!(parse_ps_line("bash"), None);
    assert_eq!(parse_ps_line("bash -1"), None);
    assert_eq!(parse_ps_line(""), None);
}

#[test]
fn pid_text_is_trimmed_and_bounded() {
    assert_eq!(parse_pid(" 1234\n"), Some(1234));
    assert_eq!(parse_pid("+7"), Some(7));
    assert_eq!(parse_pid("4294967295"), Some(u32::MAX));
    assert_eq!(parse_pid("4294967296"), None);
    assert_eq!(parse_pid("12a"), None);
    assert_eq!(parse_pid(""), None);
}

#[test]
fn width_source_labels() {
    assert_eq!(WidthSource::CliFlag.label(), "from --width");
    assert_eq!(WidthSource::Columns.label(), "from $COLUMNS");
    assert_eq!(WidthSource::TmuxPane.label(), "from tmux pane");
    assert_eq!(WidthSource::Ioctl.label(), "from terminal ioctl");
    assert_eq!(WidthSource::TputCols.label(), "from tput cols");
    assert_eq!(WidthSource::ConfigFallback.label(), "from config fallback_width");
}
