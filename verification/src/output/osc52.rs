//! The OSC 52 escape sequence, which asks the terminal to set its clipboard.

use vstd::prelude::*;
use vstd::utf8::encode_utf8;
use super::OutputTarget;

verus! {

/// Where the sequence goes: straight out, to the tty of the tmux client, or
/// wrapped for screen to pass it through.
#[derive(Debug, Clone, Copy, PartialEq, Eq)]
pub enum Osc52Mode {
    Raw,
    TmuxClientTty,
    ScreenPassthrough,
}

/// OSC 52 in one of its modes.
#[derive(Debug, Clone, Copy, PartialEq, Eq)]
pub struct Osc52 {
    pub mode: Osc52Mode,
}

/// The character of a six-bit value in the standard Base64 alphabet
/// (RFC 4648): `A`-`Z`, `a`-`z`, `0`-`9`, `+`, `/`.
pub open spec fn base64_char(v: int) -> char {
    if v < 26 {
        (65 + v) as char
    } else if v < 52 {
        (97 + (v - 26)) as char
    } else if v < 62 {
        (48 + (v - 52)) as char
    } else if v == 62 {
        '+'
    } else {
        '/'
    }
}

/// The standard Base64 encoding of bytes (RFC 4648, with padding): each
/// group of three bytes gives four characters of six bits each; a last group
/// of one or two bytes is padded with zero bits and `=`.
pub open spec fn base64_bytes(b: Seq<u8>) -> Seq<char>
    decreases b.len(),
{
    if b.len() == 0 {
        Seq::empty()
    } else {
        let x = b[0] as int;
        let y = if b.len() > 1 { b[1] as int } else { 0 };
        let z = if b.len() > 2 { b[2] as int } else { 0 };
        let c0 = base64_char(x / 4);
        let c1 = base64_char((x % 4) * 16 + y / 16);
        let c2 = base64_char((y % 16) * 4 + z / 64);
        let c3 = base64_char(z % 64);
        if b.len() == 1 {
            seq![c0, c1, '=', '=']
        } else if b.len() == 2 {
            seq![c0, c1, c2, '=']
        } else {
            seq![c0, c1, c2, c3] + base64_bytes(b.skip(3))
        }
    }
}

/// The standard Base64 encoding of the text's UTF-8 bytes.
pub open spec fn base64_standard(text: Seq<char>) -> Seq<char> {
    base64_bytes(encode_utf8(text))
}

/// `base64::Engine::encode` with `base64::engine::general_purpose::STANDARD`,
/// on the text's bytes: the RFC 4648 alphabet with padding.
#[verifier::external_body]
fn encode_base64(text: &str) -> (encoded: String)
    ensures
        encoded@ == base64_standard(text@),
{
    base64::Engine::encode(&base64::engine::general_purpose::STANDARD, text.as_bytes())
}

/// `ESC ] 52 ; c ; <payload> BEL`.
pub open spec fn raw_sequence(encoded: Seq<char>) -> Seq<char> {
    "\x1b]52;c;"@ + encoded + "\x07"@
}

/// The OSC 52 sequence that sets the clipboard to `encoded`.
pub fn raw_osc52(encoded: &str) -> (s: String)
    ensures
        s@ == raw_sequence(encoded@),
{
    let mut s = String::new();
    s.append("\x1b]52;c;");
    s.append(encoded);
    s.append("\x07");
    s
}

impl Osc52 {
    /// The bytes written for `text`: the OSC 52 sequence of its Base64
    /// encoding, wrapped in a DCS string (`ESC P ... ESC \`) for screen.
    pub open spec fn sequence_for(self, text: Seq<char>) -> Seq<char> {
        let encoded = base64_standard(text);
        match self.mode {
            Osc52Mode::ScreenPassthrough => "\x1bP"@ + raw_sequence(encoded) + "\x1b\\"@,
            _ => raw_sequence(encoded),
        }
    }

    /// The escape sequence that sets the clipboard to `text`.
    pub fn escape_sequence(&self, text: &str) -> (s: String)
        ensures
            s@ == self.sequence_for(text@),
    {
        let encoded = encode_base64(text);
        match self.mode {
            Osc52Mode::Raw | Osc52Mode::TmuxClientTty => raw_osc52(encoded.as_str()),
            Osc52Mode::ScreenPassthrough => {
                let mut s = String::new();
                s.append("\x1bP");
                let inner = raw_osc52(encoded.as_str());
                s.append(inner.as_str());
                s.append("\x1b\\");
                s
            },
        }
    }
}

impl OutputTarget for Osc52 {
    open spec fn target_name(&self) -> Seq<char> {
        match self.mode {
            Osc52Mode::Raw => "osc52"@,
            Osc52Mode::TmuxClientTty => "osc52(tmux-client-tty)"@,
            Osc52Mode::ScreenPassthrough => "osc52(screen-passthrough)"@,
        }
    }

    fn name(&self) -> (n: &'static str) {
        match self.mode {
            Osc52Mode::Raw => "osc52",
            Osc52Mode::TmuxClientTty => "osc52(tmux-client-tty)",
            Osc52Mode::ScreenPassthrough => "osc52(screen-passthrough)",
        }
    }
}

} // verus!
