//! What the terminal UI shows, as values: theme colors parsed from hex
//! text, how much of a secret is masked, and the texts that depend on the
//! mode. Drawing them is left to the terminal front end.
use crate::app::{App, Mode};
use vstd::prelude::*;
use vstd::string::StringSliceAdditionalSpecFns;

verus! {

/// The value of an ASCII hex digit.
pub open spec fn hex_digit(b: u8) -> Option<u8> {
    if 0x30 <= b <= 0x39 {
        Some((b - 0x30) as u8)
    } else if 0x61 <= b <= 0x66 {
        Some((b - 0x61 + 10) as u8)
    } else if 0x41 <= b <= 0x46 {
        Some((b - 0x41 + 10) as u8)
    } else {
        None
    }
}

/// What `u8::from_str_radix(text, 16)` gives for the two-byte text
/// `b0 b1`: two hex digits, or a `+` sign and one.
pub open spec fn parse_hex_pair(b0: u8, b1: u8) -> Option<u8> {
    if b0 == 0x2B {
        hex_digit(b1)
    } else {
        match (hex_digit(b0), hex_digit(b1)) {
            (Some(high), Some(low)) => Some((16 * high + low) as u8),
            _ => None,
        }
    }
}

/// Whether byte offset `p` of UTF-8 text `bytes` starts a character or
/// ends the text (`str::is_char_boundary`).
pub open spec fn char_boundary(bytes: Seq<u8>, p: int) -> bool {
    p == 0 || p == bytes.len() || (0 < p < bytes.len() && !(0x80 <= bytes[p] <= 0xBF))
}

/// `bytes` without its leading `#` characters.
pub open spec fn strip_hashes(bytes: Seq<u8>) -> Seq<u8>
    decreases bytes.len(),
{
    if bytes.len() > 0 && bytes[0] == 0x23 {
        strip_hashes(bytes.drop_first())
    } else {
        bytes
    }
}

/// The color component written at byte offset `i` of `digits`: the two
/// bytes there read as hex, or 255 when they are missing or not a number.
pub open spec fn component_spec(digits: Seq<u8>, i: int) -> u8 {
    if char_boundary(digits, i) && char_boundary(digits, i + 2) {
        match parse_hex_pair(digits[i], digits[i + 1]) {
            Some(v) => v,
            None => 255,
        }
    } else {
        255
    }
}

/// The RGB color that hex text such as `#ff00aa` names; a missing or
/// malformed component counts as 255.
pub open spec fn hex_rgb_spec(bytes: Seq<u8>) -> (u8, u8, u8) {
    let digits = strip_hashes(bytes);
    (component_spec(digits, 0), component_spec(digits, 2), component_spec(digits, 4))
}

fn hex_value(b: u8) -> (v: Option<u8>)
    ensures
        v == hex_digit(b),
{
    if 0x30 <= b && b <= 0x39 {
        Some(b - 0x30)
    } else if 0x61 <= b && b <= 0x66 {
        Some(b - 0x61 + 10)
    } else if 0x41 <= b && b <= 0x46 {
        Some(b - 0x41 + 10)
    } else {
        None
    }
}

fn is_boundary(bytes: &[u8], start: usize, p: usize) -> (b: bool)
    requires
        start <= bytes@.len(),
    ensures
        b == char_boundary(bytes@.skip(start as int), p as int),
{
    let len = bytes.len() - start;
    if p == 0 || p == len {
        true
    } else if p < len {
        let byte = bytes[start + p];
        !(0x80 <= byte && byte <= 0xBF)
    } else {
        false
    }
}

fn component(bytes: &[u8], start: usize, i: usize) -> (c: u8)
    requires
        start <= bytes@.len(),
        i <= 4,
    ensures
        c == component_spec(bytes@.skip(start as int), i as int),
{
    let digits = Ghost(bytes@.skip(start as int));
    let n = bytes.len();
    if is_boundary(bytes, start, i) && is_boundary(bytes, start, i + 2) {
        assert(i + 2 <= digits@.len());
        assert(digits@.len() == bytes@.len() - start);
        assert(start + i + 2 <= n);
        let b0 = bytes[start + i];
        let b1 = bytes[start + i + 1];
        assert(digits@[i as int] == b0 && digits@[i + 1] == b1);
        let parsed = if b0 == 0x2B {
            hex_value(b1)
        } else {
            match (hex_value(b0), hex_value(b1)) {
                (Some(high), Some(low)) => Some(16 * high + low),
                _ => None,
            }
        };
        match parsed {
            Some(v) => v,
            None => 255,
        }
    } else {
        255
    }
}

/// Parses a theme color written as hex text (`#rrggbb`, leading `#`s
/// optional); a missing or malformed component counts as 255.
pub fn hex_to_rgb(hex: &str) -> (rgb: (u8, u8, u8))
    ensures
        rgb == hex_rgb_spec(hex.spec_bytes()),
{
    let bytes = hex.as_bytes();
    let mut start: usize = 0;
    assert(bytes@.skip(0) =~= bytes@);
    while start < bytes.len() && bytes[start] == 0x23
        invariant
            start <= bytes@.len(),
            strip_hashes(bytes@) == strip_hashes(bytes@.skip(start as int)),
        decreases bytes@.len() - start,
    {
        assert(bytes@.skip(start as int).drop_first() =~= bytes@.skip(start + 1));
        start = start + 1;
    }
    proof {
        if start == bytes@.len() {
            assert(bytes@.skip(start as int).len() == 0);
        }
        assert(strip_hashes(bytes@) == bytes@.skip(start as int));
    }
    (component(bytes, start, 0), component(bytes, start, 2), component(bytes, start, 4))
}

/// How many mask characters hide a secret: one per character, at most 32.
pub fn secret_mask_len(secret: &str) -> (n: usize)
    ensures
        n == (if secret@.len() < 32 { secret@.len() as int } else { 32 }),
{
    let chars = secret.unicode_len();
    if chars < 32 {
        chars
    } else {
        32
    }
}

/// The noun that follows an entry count in the title.
pub fn entry_noun(count: usize) -> (noun: &'static str)
    ensures
        noun@ == (if count == 1 { "entry"@ } else { "entries"@ }),
{
    if count == 1 {
        "entry"
    } else {
        "entries"
    }
}

/// The title of the input line in modes that read text, and whether what
/// is typed there is masked; modes without an input line have none.
pub fn input_prompt(mode: Mode) -> (prompt: Option<(&'static str, bool)>)
    ensures
        match mode {
            Mode::Filter => prompt matches Some((t, masked)) && t@ == "filter"@ && !masked,
            Mode::AddLabel => prompt matches Some((t, masked)) && t@ == "label"@ && !masked,
            Mode::AddSecret => prompt matches Some((t, masked))
                && t@ == "secret — ctrl+g generate password, ctrl+p generate passphrase"@ && masked,
            Mode::AddNote => prompt matches Some((t, masked)) && t@ == "note (optional)"@ && !masked,
            Mode::Normal | Mode::ConfirmRemove => prompt is None,
        },
{
    match mode {
        Mode::Filter => Some(("filter", false)),
        Mode::AddLabel => Some(("label", false)),
        Mode::AddSecret => Some(("secret — ctrl+g generate password, ctrl+p generate passphrase", true)),
        Mode::AddNote => Some(("note (optional)", false)),
        Mode::Normal | Mode::ConfirmRemove => None,
    }
}

/// The key help shown in the footer when there is no status message.
pub fn footer_hint(mode: Mode) -> (hint: &'static str)
    ensures
        hint@ == match mode {
            Mode::Normal => "j/k move  /filter  v reveal  c copy  a add  d delete  q quit"@,
            Mode::ConfirmRemove => "remove this entry? y/n"@,
            Mode::AddSecret => "enter confirm  esc cancel  ctrl+g generate password  ctrl+p generate passphrase"@,
            Mode::Filter | Mode::AddLabel | Mode::AddNote => "enter confirm  esc cancel"@,
        },
{
    match mode {
        Mode::Normal => "j/k move  /filter  v reveal  c copy  a add  d delete  q quit",
        Mode::ConfirmRemove => "remove this entry? y/n",
        Mode::AddSecret => "enter confirm  esc cancel  ctrl+g generate password  ctrl+p generate passphrase",
        Mode::Filter | Mode::AddLabel | Mode::AddNote => "enter confirm  esc cancel",
    }
}

impl App {
    /// Whether `label`'s secret is shown in plaintext.
    pub fn is_revealed(&self, label: &str) -> (shown: bool)
        ensures
            shown == (self@.revealed == Some(label@)),
    {
        match &self.revealed {
            Some(r) => *r == label.to_owned(),
            None => false,
        }
    }
}

} // verus!
