//! Which transformers run, and the width to fall back on.

use vstd::prelude::*;

verus! {

/// One switch per transformer.
#[derive(Debug, Clone, Copy, PartialEq, Eq)]
pub struct TransformerConfig {
    pub strip_ansi: bool,
    pub strip_line_numbers: bool,
    pub join_wrapped: bool,
    pub dedent: bool,
    pub strip_trailing: bool,
    pub compress_blank: bool,
    pub strip_prompt: bool,
    pub skip_table_lines: bool,
}

/// The value a switch takes where the configuration leaves it out.
pub fn default_true() -> (b: bool)
    ensures
        b,
{
    true
}

impl TransformerConfig {
    /// Every switch on.
    pub open spec fn all_on(self) -> bool {
        &&& self.strip_ansi
        &&& self.strip_line_numbers
        &&& self.join_wrapped
        &&& self.dedent
        &&& self.strip_trailing
        &&& self.compress_blank
        &&& self.strip_prompt
        &&& self.skip_table_lines
    }
}

impl Default for TransformerConfig {
    /// Every transformer enabled.
    fn default() -> (c: Self)
        ensures
            c.all_on(),
    {
        Self {
            strip_ansi: true,
            strip_line_numbers: true,
            join_wrapped: true,
            dedent: true,
            strip_trailing: true,
            compress_blank: true,
            strip_prompt: true,
            skip_table_lines: true,
        }
    }
}

/// The configuration file's contents.
#[derive(Debug, Clone, Copy, PartialEq, Eq)]
pub struct Config {
    pub fallback_width: usize,
    pub transformers: TransformerConfig,
}

/// The width used where nothing else gives one.
pub fn default_width() -> (w: usize)
    ensures
        w == 80,
{
    80
}

impl Default for Config {
    /// A fallback width of 80 columns, every transformer enabled.
    fn default() -> (c: Self)
        ensures
            c.fallback_width == 80,
            c.transformers.all_on(),
    {
        Self { fallback_width: 80, transformers: TransformerConfig::default() }
    }
}

} // verus!
