//! Where the cleaned text goes, and which targets the environment calls for.

pub mod os_clipboard;
pub mod osc52;
pub mod screen_buffer;
pub mod stdout;
pub mod tmux_buffer;
pub mod wsl_clipboard;

use vstd::prelude::*;
use crate::multiplexer::Multiplexer;
use crate::process_tree::{contains_exec, contains_seq};
use crate::text::{chars_of, str_eq, string_from, trim, trim_chars, views};
use os_clipboard::OsClipboard;
use osc52::{Osc52, Osc52Mode};
use screen_buffer::ScreenBuffer;
use stdout::Stdout;
use tmux_buffer::TmuxBuffer;
use wsl_clipboard::WslClipboard;

verus! {

/// A place the cleaned text can be written to.
pub trait OutputTarget {
    /// The target's name.
    spec fn target_name(&self) -> Seq<char>;

    fn name(&self) -> (n: &'static str)
        ensures
            n@ == self.target_name(),
    ;
}

/// One of the output targets.
#[derive(Debug, Clone, Copy, PartialEq, Eq)]
pub enum Target {
    Stdout(Stdout),
    OsClipboard(OsClipboard),
    WslClipboard(WslClipboard),
    TmuxBuffer(TmuxBuffer),
    ScreenBuffer(ScreenBuffer),
    Osc52(Osc52),
}

impl OutputTarget for Target {
    open spec fn target_name(&self) -> Seq<char> {
        match self {
            Target::Stdout(t) => t.target_name(),
            Target::OsClipboard(t) => t.target_name(),
            Target::WslClipboard(t) => t.target_name(),
            Target::TmuxBuffer(t) => t.target_name(),
            Target::ScreenBuffer(t) => t.target_name(),
            Target::Osc52(t) => t.target_name(),
        }
    }

    fn name(&self) -> (n: &'static str) {
        match self {
            Target::Stdout(t) => t.name(),
            Target::OsClipboard(t) => t.name(),
            Target::WslClipboard(t) => t.name(),
            Target::TmuxBuffer(t) => t.name(),
            Target::ScreenBuffer(t) => t.name(),
            Target::Osc52(t) => t.name(),
        }
    }
}

/// What was found out about the session the program runs in.
#[derive(Debug)]
pub struct Environment {
    pub multiplexer: Option<Multiplexer>,
    pub is_ssh: bool,
    pub is_wsl: bool,
    pub set_clipboard: String,
}

/// The clipboard of the platform: `clip.exe` under WSL, else the OS clipboard.
pub open spec fn clipboard_for(is_wsl: bool) -> Target {
    if is_wsl {
        Target::WslClipboard(WslClipboard)
    } else {
        Target::OsClipboard(OsClipboard)
    }
}

/// The target that a name in an output list stands for.
pub open spec fn named_target(env: &Environment, name: Seq<char>) -> Option<Target> {
    if name == "stdout"@ {
        Some(Target::Stdout(Stdout))
    } else if name == "os-clipboard"@ {
        Some(Target::OsClipboard(OsClipboard))
    } else if name == "clipboard"@ {
        Some(clipboard_for(env.is_wsl))
    } else if name == "wsl-clipboard"@ {
        Some(Target::WslClipboard(WslClipboard))
    } else if name == "tmux"@ {
        Some(Target::TmuxBuffer(TmuxBuffer))
    } else if name == "screen"@ {
        Some(Target::ScreenBuffer(ScreenBuffer))
    } else if name == "osc52"@ {
        Some(
            Target::Osc52(
                Osc52 {
                    mode: match env.multiplexer {
                        Some(Multiplexer::Tmux) => Osc52Mode::TmuxClientTty,
                        Some(Multiplexer::Screen) => Osc52Mode::ScreenPassthrough,
                        None => Osc52Mode::Raw,
                    },
                },
            ),
        )
    } else {
        None
    }
}

/// The pieces of `s` between commas, as `str::split(',')` gives them.
pub open spec fn comma_parts(s: Seq<char>) -> Seq<Seq<char>>
    decreases s.len(),
{
    if s.len() == 0 {
        seq![Seq::empty()]
    } else {
        let p = comma_parts(s.drop_last());
        if s.last() == ',' {
            p.push(Seq::empty())
        } else {
            p.update(p.len() - 1, p.last().push(s.last()))
        }
    }
}

/// The targets that the (trimmed) names stand for, in order.
pub open spec fn listed_targets(env: &Environment, names: Seq<Seq<char>>) -> Seq<Target>
    decreases names.len(),
{
    if names.len() == 0 {
        Seq::empty()
    } else {
        listed_targets(env, names.drop_last()) + match named_target(env, trim(names.last())) {
            Some(t) => seq![t],
            None => Seq::empty(),
        }
    }
}

/// The (trimmed) names that stand for no target, in order.
pub open spec fn unknown_names(env: &Environment, names: Seq<Seq<char>>) -> Seq<Seq<char>>
    decreases names.len(),
{
    if names.len() == 0 {
        Seq::empty()
    } else {
        unknown_names(env, names.drop_last()) + match named_target(env, trim(names.last())) {
            Some(t) => Seq::empty(),
            None => seq![trim(names.last())],
        }
    }
}

/// A piece of `comma_parts` never grows past the text, and there is always one.
proof fn lemma_comma_parts_len(s: Seq<char>)
    ensures
        comma_parts(s).len() >= 1,
    decreases s.len(),
{
    if s.len() > 0 {
        lemma_comma_parts_len(s.drop_last());
    }
}

/// Every name in an output list yields either a target or an unknown name,
/// in order.
pub proof fn lemma_each_name_accounted(env: &Environment, names: Seq<Seq<char>>)
    ensures
        listed_targets(env, names).len() + unknown_names(env, names).len() == names.len(),
    decreases names.len(),
{
    if names.len() > 0 {
        lemma_each_name_accounted(env, names.drop_last());
    }
}

/// Whether the kernel's version text, lowercased, marks a WSL kernel: it
/// mentions `microsoft`.
pub fn wsl_kernel(version_lowercase: &str) -> (b: bool)
    ensures
        b == contains_seq(version_lowercase@, "microsoft"@),
{
    let v = chars_of(version_lowercase);
    let marker = chars_of("microsoft");
    contains_exec(&v, &marker)
}

/// The exit status after writing to the targets: 2 where any of them failed,
/// else 0.
pub fn delivery_status(any_failed: bool) -> (code: i32)
    ensures
        code == (if any_failed { 2i32 } else { 0i32 }),
{
    if any_failed {
        2
    } else {
        0
    }
}

impl Environment {
    /// The environment made of what was detected; the `set-clipboard` option
    /// counts only inside tmux, and is taken as `on` elsewhere.
    pub fn detect(
        multiplexer: Option<Multiplexer>,
        is_ssh: bool,
        is_wsl: bool,
        tmux_set_clipboard: &str,
    ) -> (env: Self)
        ensures
            env.multiplexer == multiplexer,
            env.is_ssh == is_ssh,
            env.is_wsl == is_wsl,
            env.set_clipboard@ == (if multiplexer == Some(Multiplexer::Tmux) {
                tmux_set_clipboard@
            } else {
                "on"@
            }),
    {
        let set_clipboard = if matches!(multiplexer, Some(Multiplexer::Tmux)) {
            String::from_str(tmux_set_clipboard)
        } else {
            String::from_str("on")
        };
        Self { multiplexer, is_ssh, is_wsl, set_clipboard }
    }

    /// The clipboard target of the platform.
    fn clipboard_target(&self) -> (t: Target)
        ensures
            t == clipboard_for(self.is_wsl),
    {
        if self.is_wsl {
            Target::WslClipboard(WslClipboard)
        } else {
            Target::OsClipboard(OsClipboard)
        }
    }

    /// The targets for this environment when none are asked for: the
    /// multiplexer's buffer where there is one; the platform clipboard in a
    /// local session (inside tmux only while `set-clipboard` is `on` or
    /// `external`); OSC 52 over SSH (inside tmux only while `set-clipboard` is
    /// `on` or `external`), and also locally inside tmux with `external`.
    pub open spec fn auto_target_list(&self) -> Seq<Target> {
        let clip = clipboard_for(self.is_wsl);
        let sc = self.set_clipboard@;
        let tmux_tty = Target::Osc52(Osc52 { mode: Osc52Mode::TmuxClientTty });
        match self.multiplexer {
            Some(Multiplexer::Tmux) => if !self.is_ssh {
                if sc == "on"@ {
                    seq![Target::TmuxBuffer(TmuxBuffer), clip]
                } else if sc == "external"@ {
                    seq![Target::TmuxBuffer(TmuxBuffer), clip, tmux_tty]
                } else {
                    seq![Target::TmuxBuffer(TmuxBuffer)]
                }
            } else if sc == "on"@ || sc == "external"@ {
                seq![Target::TmuxBuffer(TmuxBuffer), tmux_tty]
            } else {
                seq![Target::TmuxBuffer(TmuxBuffer)]
            },
            Some(Multiplexer::Screen) => if !self.is_ssh {
                seq![Target::ScreenBuffer(ScreenBuffer), clip]
            } else {
                seq![
                    Target::ScreenBuffer(ScreenBuffer),
                    Target::Osc52(Osc52 { mode: Osc52Mode::ScreenPassthrough }),
                ]
            },
            None => if !self.is_ssh {
                seq![clip]
            } else {
                seq![Target::Osc52(Osc52 { mode: Osc52Mode::Raw })]
            },
        }
    }

    /// The targets chosen for this environment.
    pub fn auto_targets(&self) -> (targets: Vec<Target>)
        ensures
            targets@ == self.auto_target_list(),
    {
        let mut targets: Vec<Target> = Vec::new();
        let on = str_eq(self.set_clipboard.as_str(), "on");
        let external = str_eq(self.set_clipboard.as_str(), "external");
        match self.multiplexer {
            Some(Multiplexer::Tmux) => {
                targets.push(Target::TmuxBuffer(TmuxBuffer));
                if !self.is_ssh {
                    if on {
                        targets.push(self.clipboard_target());
                    } else if external {
                        targets.push(self.clipboard_target());
                        targets.push(Target::Osc52(Osc52 { mode: Osc52Mode::TmuxClientTty }));
                    }
                } else if on || external {
                    targets.push(Target::Osc52(Osc52 { mode: Osc52Mode::TmuxClientTty }));
                }
            },
            Some(Multiplexer::Screen) => {
                targets.push(Target::ScreenBuffer(ScreenBuffer));
                if !self.is_ssh {
                    targets.push(self.clipboard_target());
                } else {
                    targets.push(Target::Osc52(Osc52 { mode: Osc52Mode::ScreenPassthrough }));
                }
            },
            None => {
                if !self.is_ssh {
                    targets.push(self.clipboard_target());
                } else {
                    targets.push(Target::Osc52(Osc52 { mode: Osc52Mode::Raw }));
                }
            },
        }
        proof {
            assert(targets@ =~= self.auto_target_list());
        }
        targets
    }

    /// The target that `name` stands for, if any.
    fn target_named(&self, name: &str) -> (t: Option<Target>)
        ensures
            t == named_target(self, name@),
    {
        if str_eq(name, "stdout") {
            Some(Target::Stdout(Stdout))
        } else if str_eq(name, "os-clipboard") {
            Some(Target::OsClipboard(OsClipboard))
        } else if str_eq(name, "clipboard") {
            Some(self.clipboard_target())
        } else if str_eq(name, "wsl-clipboard") {
            Some(Target::WslClipboard(WslClipboard))
        } else if str_eq(name, "tmux") {
            Some(Target::TmuxBuffer(TmuxBuffer))
        } else if str_eq(name, "screen") {
            Some(Target::ScreenBuffer(ScreenBuffer))
        } else if str_eq(name, "osc52") {
            let mode = match self.multiplexer {
                Some(Multiplexer::Tmux) => Osc52Mode::TmuxClientTty,
                Some(Multiplexer::Screen) => Osc52Mode::ScreenPassthrough,
                None => Osc52Mode::Raw,
            };
            Some(Target::Osc52(Osc52 { mode }))
        } else {
            None
        }
    }

    /// The targets of a comma-separated list of names, each trimmed, and the
    /// names that stand for no target.
    pub fn parse_output_spec(&self, spec: &str) -> (res: (Vec<Target>, Vec<String>))
        ensures
            res.0@ == listed_targets(self, comma_parts(spec@)),
            res.1@.map_values(|s: String| s@) == unknown_names(self, comma_parts(spec@)),
    {
        let parts = split_commas(spec);
        let ghost names = comma_parts(spec@);
        let mut targets: Vec<Target> = Vec::new();
        let mut unknown: Vec<String> = Vec::new();
        let n = parts.len();
        let mut i: usize = 0;
        while i < n
            invariant
                n == parts@.len(),
                views(parts@) == names,
                i <= n,
                targets@ == listed_targets(self, names.take(i as int)),
                unknown@.map_values(|s: String| s@) == unknown_names(self, names.take(i as int)),
            decreases n - i,
        {
            proof {
                assert(views(parts@)[i as int] == parts@[i as int]@);
                let t = names.take(i + 1);
                assert(t.drop_last() =~= names.take(i as int));
                assert(t.last() == names[i as int]);
            }
            let trimmed = trim_chars(&parts[i]);
            let name = string_from(&trimmed);
            let ghost before_t = targets@;
            let ghost before_u = unknown@.map_values(|s: String| s@);
            match self.target_named(name.as_str()) {
                Some(t) => {
                    targets.push(t);
                    proof {
                        assert(unknown@.map_values(|s: String| s@) =~= before_u + Seq::<Seq<char>>::empty());
                    }
                },
                None => {
                    unknown.push(name);
                    proof {
                        assert(targets@ =~= before_t + Seq::<Target>::empty());
                        assert(unknown@.map_values(|s: String| s@) =~= before_u.push(trim(names[i as int])));
                    }
                },
            }
            i = i + 1;
        }
        proof {
            assert(names.take(n as int) =~= names);
        }
        (targets, unknown)
    }
}

/// The pieces of `s` between commas.
fn split_commas(s: &str) -> (parts: Vec<Vec<char>>)
    ensures
        views(parts@) == comma_parts(s@),
{
    let chars = chars_of(s);
    let mut done: Vec<Vec<char>> = Vec::new();
    let mut cur: Vec<char> = Vec::new();
    let n = chars.len();
    let mut i: usize = 0;
    proof {
        assert(s@.take(0) =~= Seq::<char>::empty());
        assert(views(done@).push(cur@) =~= comma_parts(s@.take(0)));
    }
    while i < n
        invariant
            n == chars@.len(),
            chars@ == s@,
            i <= n,
            views(done@).push(cur@) == comma_parts(s@.take(i as int)),
        decreases n - i,
    {
        let c = chars[i];
        proof {
            assert(s@.take(i + 1).drop_last() =~= s@.take(i as int));
            lemma_comma_parts_len(s@.take(i as int));
        }
        let ghost old_done = views(done@);
        let ghost old_cur = cur@;
        if c == ',' {
            let piece = cur;
            done.push(piece);
            cur = Vec::new();
            proof {
                assert(views(done@) =~= old_done.push(old_cur));
                assert(views(done@).push(cur@) =~= comma_parts(s@.take(i + 1)));
            }
        } else {
            cur.push(c);
            proof {
                assert(views(done@).push(cur@) =~= comma_parts(s@.take(i + 1)));
            }
        }
        i = i + 1;
    }
    proof {
        assert(s@.take(n as int) =~= s@);
    }
    let ghost old_done = views(done@);
    let piece = cur;
    done.push(piece);
    proof {
        assert(views(done@) =~= old_done.push(piece@));
    }
    done
}

} // verus!
