use yfix::config::{Config, TransformerConfig};
use yfix::processor::{format_trace_line, Processor};
use yfix::transformer::Warning;

#[test]
fn process_with_all_disabled_returns_input() {
    let config = Config {
        fallback_width: 80,
        transformers: TransformerConfig {
            strip_ansi: false,
            strip_line_numbers: false,
            join_wrapped: false,
            dedent: false,
            strip_trailing: false,
            compress_blank: false,
            strip_prompt: false,
            skip_table_lines: true,
        },
    };
    let p = Processor::from_config(&config, 80);
    assert_eq!(p.process("hello\nworld").unwrap(), "hello\nworld");
}

#[test]
fn process_strips_ansi_and_trailing() {
    let config = Config::default();
    let p = Processor::from_config(&config, 80);
    let input = "\x1b[31mhello\x1b[0m   ";
    assert_eq!(p.process(input).unwrap(), "hello");
}

#[test]
fn process_runs_the_stages_in_order() {
    let p = Processor::from_config(&Config::default(), 80);
    assert_eq!(p.process("  1 hello\n  2 world\n  3 foo").unwrap(), "hello\nworld\nfoo");
    assert_eq!(p.process("\x1b[31mhello\x1b[0m world   ").unwrap(), "hello world");
    assert_eq!(p.process("").unwrap(), "");
}

#[test]
fn trace_records_each_stage() {
    let mut config = Config::default();
    config.transformers.strip_line_numbers = false;
    config.transformers.join_wrapped = false;
    config.transformers.dedent = false;
    config.transformers.compress_blank = false;
    config.transformers.strip_prompt = false;
    let p = Processor::from_config(&config, 80);
    let r = p.process_with_trace("\x1b[31mhi\x1b[0m  \nあ").unwrap();
    assert_eq!(r.text, "hi\nあ");
    assert_eq!(
        r.trace,
        vec![
            "[input] 2 lines".to_string(),
            "  w= 13 | \x1b[31mhi\x1b[0m  ".to_string(),
            "  w=  2 | あ".to_string(),
            "[strip_ansi] changed".to_string(),
            "  w=  4 | hi  ".to_string(),
            "  w=  2 | あ".to_string(),
            "[strip_trailing] changed".to_string(),
            "  w=  2 | hi".to_string(),
            "  w=  2 | あ".to_string(),
        ]
    );
    assert!(r.warnings.is_empty());
}

#[test]
fn trace_collects_warnings_and_no_change() {
    let mut config = Config::default();
    config.transformers.strip_ansi = false;
    config.transformers.dedent = false;
    config.transformers.strip_trailing = false;
    config.transformers.compress_blank = false;
    config.transformers.strip_prompt = false;
    let p = Processor::from_config(&config, 20);
    let r = p.process_with_trace("abcdefghijklmno\nnext line").unwrap();
    assert_eq!(r.text, "abcdefghijklmno\nnext line");
    assert_eq!(
        r.trace,
        vec![
            "[input] 2 lines".to_string(),
            "  w= 15 | abcdefghijklmno".to_string(),
            "  w=  9 | next line".to_string(),
            "[strip_line_numbers] no change".to_string(),
            "[join_wrapped] no change".to_string(),
        ]
    );
    assert_eq!(r.warnings, vec![Warning::JoinNearMiss { line_index: 0, width: 15, wrap_width: 20 }]);
}

#[test]
fn trace_line_pads_width() {
    assert_eq!(format_trace_line(7, "abc"), "  w=  7 | abc");
    assert_eq!(format_trace_line(42, ""), "  w= 42 | ");
    assert_eq!(format_trace_line(1234, "x"), "  w=1234 | x");
}

#[test]
fn try_process_refuses_only_an_overflowing_join_width() {
    let mut config = Config::default();
    let huge = usize::MAX / 70 + 1;
    let p = Processor::from_config(&config, huge);
    assert!(!p.fits());
    assert!(p.try_process("a\n").is_none());
    assert!(p.try_process_with_trace("a\n").is_none());
    config.transformers.join_wrapped = false;
    let p = Processor::from_config(&config, huge);
    assert!(p.fits());
    assert_eq!(p.try_process("x  \n").unwrap().unwrap(), "x");
    let p = Processor::from_config(&Config::default(), 80);
    assert!(p.fits());
    let r = p.try_process_with_trace("a\n").unwrap().unwrap();
    assert_eq!(r.trace[0], "[input] 1 lines");
}
