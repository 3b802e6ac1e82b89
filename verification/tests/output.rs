use yfix::multiplexer::Multiplexer;
use yfix::output::osc52::{raw_osc52, Osc52, Osc52Mode};
use yfix::output::{Environment, OutputTarget, Target};

fn target_names(env: &Environment) -> Vec<&'static str> {
    env.auto_targets().iter().map(|t| t.name()).collect()
}

fn env(mux: Option<Multiplexer>, ssh: bool, wsl: bool, clipboard: &str) -> Environment {
    Environment { multiplexer: mux, is_ssh: ssh, is_wsl: wsl, set_clipboard: clipboard.to_string() }
}

fn names(targets: &[Target]) -> Vec<&'static str> {
    targets.iter().map(|t| t.name()).collect()
}

#[test]
fn tmux_local_on() {
    assert_eq!(
        target_names(&env(Some(Multiplexer::Tmux), false, false, "on")),
        vec!["tmux-buffer", "os-clipboard"]
    );
}

#[test]
fn tmux_local_external() {
    assert_eq!(
        target_names(&env(Some(Multiplexer::Tmux), false, false, "external")),
        vec!["tmux-buffer", "os-clipboard", "osc52(tmux-client-tty)"]
    );
}

#[test]
fn tmux_local_off() {
    assert_eq!(target_names(&env(Some(Multiplexer::Tmux), false, false, "off")), vec!["tmux-buffer"]);
}

#[test]
fn tmux_ssh_on() {
    assert_eq!(
        target_names(&env(Some(Multiplexer::Tmux), true, false, "on")),
        vec!["tmux-buffer", "osc52(tmux-client-tty)"]
    );
}

#[test]
fn tmux_ssh_off() {
    assert_eq!(target_names(&env(Some(Multiplexer::Tmux), true, false, "off")), vec!["tmux-buffer"]);
}

#[test]
fn screen_local() {
    assert_eq!(
        target_names(&env(Some(Multiplexer::Screen), false, false, "on")),
        vec!["screen-buffer", "os-clipboard"]
    );
}

#[test]
fn screen_ssh() {
    assert_eq!(
        target_names(&env(Some(Multiplexer::Screen), true, false, "on")),
        vec!["screen-buffer", "osc52(screen-passthrough)"]
    );
}

#[test]
fn standalone_local() {
    assert_eq!(target_names(&env(None, false, false, "on")), vec!["os-clipboard"]);
}

#[test]
fn standalone_ssh() {
    assert_eq!(target_names(&env(None, true, false, "on")), vec!["osc52"]);
}

#[test]
fn wsl_standalone() {
    assert_eq!(target_names(&env(None, false, true, "on")), vec!["wsl-clipboard"]);
}

#[test]
fn wsl_tmux_local() {
    assert_eq!(
        target_names(&env(Some(Multiplexer::Tmux), false, true, "on")),
        vec!["tmux-buffer", "wsl-clipboard"]
    );
}

#[test]
fn tmux_ssh_external_and_wsl_external() {
    assert_eq!(
        target_names(&env(Some(Multiplexer::Tmux), true, false, "external")),
        vec!["tmux-buffer", "osc52(tmux-client-tty)"]
    );
    assert_eq!(
        target_names(&env(Some(Multiplexer::Tmux), false, true, "external")),
        vec!["tmux-buffer", "wsl-clipboard", "osc52(tmux-client-tty)"]
    );
    assert_eq!(
        target_names(&env(Some(Multiplexer::Screen), false, true, "off")),
        vec!["screen-buffer", "wsl-clipboard"]
    );
}

#[test]
fn parse_spec_stdout() {
    let e = env(None, false, false, "on");
    let (targets, unknown) = e.parse_output_spec("stdout");
    assert_eq!(names(&targets), vec!["stdout"]);
    assert!(unknown.is_empty());
}

#[test]
fn parse_spec_multiple() {
    let e = env(None, false, false, "on");
    let (targets, unknown) = e.parse_output_spec("stdout,os-clipboard");
    assert_eq!(names(&targets), vec!["stdout", "os-clipboard"]);
    assert!(unknown.is_empty());
}

#[test]
fn parse_spec_unknown() {
    let e = env(None, false, false, "on");
    let (targets, unknown) = e.parse_output_spec("stdout,bogus");
    assert_eq!(names(&targets), vec!["stdout"]);
    assert_eq!(unknown, vec!["bogus"]);
}

#[test]
fn parse_spec_osc52_tmux() {
    let e = env(Some(Multiplexer::Tmux), false, false, "on");
    let (targets, _) = e.parse_output_spec("osc52");
    assert_eq!(names(&targets), vec!["osc52(tmux-client-tty)"]);
}

#[test]
fn parse_spec_osc52_raw() {
    let e = env(None, false, false, "on");
    let (targets, _) = e.parse_output_spec("osc52");
    assert_eq!(names(&targets), vec!["osc52"]);
}

#[test]
fn parse_spec_clipboard_alias() {
    let e = env(None, false, true, "on");
    let (targets, unknown) = e.parse_output_spec("clipboard");
    assert_eq!(names(&targets), vec!["wsl-clipboard"]);
    assert!(unknown.is_empty());
}

#[test]
fn parse_spec_wsl_clipboard_explicit() {
    let e = env(None, false, false, "on");
    let (targets, unknown) = e.parse_output_spec("wsl-clipboard");
    assert_eq!(names(&targets), vec!["wsl-clipboard"]);
    assert!(unknown.is_empty());
}

#[test]
fn parse_spec_trims_and_keeps_empty_pieces() {
    let e = env(Some(Multiplexer::Screen), false, false, "on");
    let (targets, unknown) = e.parse_output_spec(" tmux , screen,,osc52 ,clipboard");
    assert_eq!(
        names(&targets),
        vec!["tmux-buffer", "screen-buffer", "osc52(screen-passthrough)", "os-clipboard"]
    );
    assert_eq!(unknown, vec![""]);
    let (targets, unknown) = e.parse_output_spec("");
    assert!(targets.is_empty());
    assert_eq!(unknown, vec![""]);
}

#[test]
fn environment_detect_keeps_set_clipboard_only_in_tmux() {
    let e = Environment::detect(Some(Multiplexer::Tmux), true, false, "external");
    assert_eq!(e.set_clipboard, "external");
    assert!(e.is_ssh);
    let e = Environment::detect(Some(Multiplexer::Screen), false, true, "off");
    assert_eq!(e.set_clipboard, "on");
    assert!(e.is_wsl);
    let e = Environment::detect(None, false, false, "off");
    assert_eq!(e.set_clipboard, "on");
    assert_eq!(e.multiplexer, None);
}

#[test]
fn raw_format_is_correct() {
    let o = Osc52 { mode: Osc52Mode::Raw };
    assert_eq!(o.name(), "osc52");
}

#[test]
fn tmux_client_tty_name() {
    let o = Osc52 { mode: Osc52Mode::TmuxClientTty };
    assert_eq!(o.name(), "osc52(tmux-client-tty)");
}

#[test]
fn osc52_sequences() {
    assert_eq!(raw_osc52("aGk="), "\x1b]52;c;aGk=\x07");
    let raw = Osc52 { mode: Osc52Mode::Raw };
    assert_eq!(raw.escape_sequence("hello"), "\x1b]52;c;aGVsbG8=\x07");
    let tty = Osc52 { mode: Osc52Mode::TmuxClientTty };
    assert_eq!(tty.escape_sequence("hi"), "\x1b]52;c;aGk=\x07");
    let screen = Osc52 { mode: Osc52Mode::ScreenPassthrough };
    assert_eq!(screen.escape_sequence("hi"), "\x1bP\x1b]52;c;aGk=\x07\x1b\\");
    assert_eq!(raw.escape_sequence("あ"), "\x1b]52;c;44GC\x07");
    assert_eq!(raw.escape_sequence(""), "\x1b]52;c;\x07");
}

#[test]
fn wsl_kernel_marker_and_exit_status() {
    assert!(yfix::output::wsl_kernel(
        "linux version 5.15.153.1-microsoft-standard-wsl2 (root@x) (gcc)"
    ));
    assert!(!yfix::output::wsl_kernel("linux version 6.8.0-45-generic (buildd@lcy02)"));
    assert!(!yfix::output::wsl_kernel(""));
    assert_eq!(yfix::output::delivery_status(true), 2);
    assert_eq!(yfix::output::delivery_status(false), 0);
}
