//! ANSI colors for terminal output.

use crate::text::same_bytes;
use vstd::prelude::*;
use vstd::string::StringSliceAdditionalSpecFns;

verus! {

/// The byte `b` with an ASCII capital letter turned into its small letter.
pub open spec fn ascii_lower(b: u8) -> u8 {
    if 'A' as u8 <= b <= 'Z' as u8 {
        (b + 32) as u8
    } else {
        b
    }
}

/// `s` with its ASCII capital letters turned into small letters.
pub open spec fn lowered(s: Seq<u8>) -> Seq<u8> {
    Seq::new(s.len(), |i: int| ascii_lower(s[i]))
}

/// `s` in small letters.
pub fn to_lower(s: &[u8]) -> (out: Vec<u8>)
    ensures
        out@ == lowered(s@),
{
    let mut out: Vec<u8> = Vec::with_capacity(s.len());
    let mut i: usize = 0;
    while i < s.len()
        invariant
            i <= s.len(),
            out@ == lowered(s@).take(i as int),
        decreases s.len() - i,
    {
        let b = s[i];
        if 'A' as u8 <= b && b <= 'Z' as u8 {
            out.push(b + 32);
        } else {
            out.push(b);
        }
        assert(out@ =~= lowered(s@).take(i + 1));
        i += 1;
    }
    assert(lowered(s@).take(s.len() as int) =~= lowered(s@));
    out
}

/// When to color the output.
#[derive(Debug, Clone, Copy, PartialEq, Eq, Structural)]
pub enum ColorMode {
    /// Color when the output is a terminal.
    Auto,
    /// Always color.
    Always,
    /// Never color.
    Never,
}

/// The word `auto`.
pub open spec fn word_auto() -> Seq<u8> {
    seq!['a' as u8, 'u' as u8, 't' as u8, 'o' as u8]
}

/// The word `always`.
pub open spec fn word_always() -> Seq<u8> {
    seq!['a' as u8, 'l' as u8, 'w' as u8, 'a' as u8, 'y' as u8, 's' as u8]
}

/// The word `never`.
pub open spec fn word_never() -> Seq<u8> {
    seq!['n' as u8, 'e' as u8, 'v' as u8, 'e' as u8, 'r' as u8]
}

/// The color mode that a word names, whatever the case of its letters.
pub open spec fn color_mode_of(word: Seq<u8>) -> Option<ColorMode> {
    if lowered(word) == word_auto() {
        Some(ColorMode::Auto)
    } else if lowered(word) == word_always() {
        Some(ColorMode::Always)
    } else if lowered(word) == word_never() {
        Some(ColorMode::Never)
    } else {
        None
    }
}

impl Default for ColorMode {
    fn default() -> (out: Self)
        ensures
            out == ColorMode::Auto,
    {
        ColorMode::Auto
    }
}

impl ColorMode {
    /// Reads a color mode: `auto`, `always` or `never`, in any case.
    pub fn parse(s: &str) -> (r: Option<Self>)
        ensures
            r == color_mode_of(s.spec_bytes()),
    {
        ColorMode::parse_bytes(s.as_bytes())
    }

    /// Reads a color mode from the bytes of a word.
    pub fn parse_bytes(s: &[u8]) -> (r: Option<Self>)
        ensures
            r == color_mode_of(s@),
    {
        let word = to_lower(s);
        let auto: [u8; 4] = ['a' as u8, 'u' as u8, 't' as u8, 'o' as u8];
        let always: [u8; 6] = ['a' as u8, 'l' as u8, 'w' as u8, 'a' as u8, 'y' as u8, 's' as u8];
        let never: [u8; 5] = ['n' as u8, 'e' as u8, 'v' as u8, 'e' as u8, 'r' as u8];
        proof {
            assert(auto@ =~= word_auto());
            assert(always@ =~= word_always());
            assert(never@ =~= word_never());
        }
        if same_bytes(word.as_slice(), auto.as_slice()) {
            Some(ColorMode::Auto)
        } else if same_bytes(word.as_slice(), always.as_slice()) {
            Some(ColorMode::Always)
        } else if same_bytes(word.as_slice(), never.as_slice()) {
            Some(ColorMode::Never)
        } else {
            None
        }
    }

    /// Whether output that goes to a terminal, or not, is to be colored.
    pub open spec fn uses_color(self, is_terminal: bool) -> bool {
        match self {
            ColorMode::Always => true,
            ColorMode::Never => false,
            ColorMode::Auto => is_terminal,
        }
    }

    /// Whether to color output, given whether it goes to a terminal.
    pub fn should_use_color(&self, is_terminal: bool) -> (r: bool)
        ensures
            r == self.uses_color(is_terminal),
    {
        match self {
            ColorMode::Always => true,
            ColorMode::Never => false,
            ColorMode::Auto => is_terminal,
        }
    }
}

/// The ANSI attributes and colors that the output uses.
#[derive(Debug, Clone, Copy, PartialEq, Eq, Structural)]
pub enum Color {
    Reset,
    Bold,
    Dim,
    Red,
    Green,
    Yellow,
    Blue,
    Magenta,
    Cyan,
    White,
    BrightBlack,
    BrightRed,
    BrightGreen,
    BrightYellow,
    BrightBlue,
    BrightMagenta,
    BrightCyan,
    BrightWhite,
}

impl Color {
    /// The escape sequence that switches the color on.
    pub open spec fn sequence(self) -> Seq<u8> {
        match self {
            Color::Reset => "\x1b[0m".spec_bytes(),
            Color::Bold => "\x1b[1m".spec_bytes(),
            Color::Dim => "\x1b[2m".spec_bytes(),
            Color::Red => "\x1b[31m".spec_bytes(),
            Color::Green => "\x1b[32m".spec_bytes(),
            Color::Yellow => "\x1b[33m".spec_bytes(),
            Color::Blue => "\x1b[34m".spec_bytes(),
            Color::Magenta => "\x1b[35m".spec_bytes(),
            Color::Cyan => "\x1b[36m".spec_bytes(),
            Color::White => "\x1b[37m".spec_bytes(),
            Color::BrightBlack => "\x1b[90m".spec_bytes(),
            Color::BrightRed => "\x1b[91m".spec_bytes(),
            Color::BrightGreen => "\x1b[92m".spec_bytes(),
            Color::BrightYellow => "\x1b[93m".spec_bytes(),
            Color::BrightBlue => "\x1b[94m".spec_bytes(),
            Color::BrightMagenta => "\x1b[95m".spec_bytes(),
            Color::BrightCyan => "\x1b[96m".spec_bytes(),
            Color::BrightWhite => "\x1b[97m".spec_bytes(),
        }
    }

    /// The escape sequence that switches the color on.
    pub fn code(&self) -> (r: &'static str)
        ensures
            r.spec_bytes() == self.sequence(),
    {
        match self {
            Color::Reset => "\x1b[0m",
            Color::Bold => "\x1b[1m",
            Color::Dim => "\x1b[2m",
            Color::Red => "\x1b[31m",
            Color::Green => "\x1b[32m",
            Color::Yellow => "\x1b[33m",
            Color::Blue => "\x1b[34m",
            Color::Magenta => "\x1b[35m",
            Color::Cyan => "\x1b[36m",
            Color::White => "\x1b[37m",
            Color::BrightBlack => "\x1b[90m",
            Color::BrightRed => "\x1b[91m",
            Color::BrightGreen => "\x1b[92m",
            Color::BrightYellow => "\x1b[93m",
            Color::BrightBlue => "\x1b[94m",
            Color::BrightMagenta => "\x1b[95m",
            Color::BrightCyan => "\x1b[96m",
            Color::BrightWhite => "\x1b[97m",
        }
    }
}

/// Paints text, or leaves it plain when color is off.
pub struct Colorizer {
    enabled: bool,
}

impl Colorizer {
    /// Whether this colorizer paints.
    pub closed spec fn paints(&self) -> bool {
        self.enabled
    }

    /// A colorizer for output that goes to a terminal, or not.
    pub fn new(mode: ColorMode, is_terminal: bool) -> (out: Self)
        ensures
            out.paints() == mode.uses_color(is_terminal),
    {
        Colorizer { enabled: mode.should_use_color(is_terminal) }
    }

    /// The text in the color, with a reset behind it; the text alone when
    /// color is off.
    pub fn paint(&self, color: Color, text: &[u8]) -> (r: Vec<u8>)
        ensures
            r@ == (if self.paints() {
                color.sequence() + text@ + Color::Reset.sequence()
            } else {
                text@
            }),
    {
        if self.enabled {
            let mut out: Vec<u8> = Vec::new();
            out.extend_from_slice(color.code().as_bytes());
            out.extend_from_slice(text);
            out.extend_from_slice(Color::Reset.code().as_bytes());
            assert(out@ =~= color.sequence() + text@ + Color::Reset.sequence());
            out
        } else {
            vstd::slice::slice_to_vec(text)
        }
    }

    /// Whether color is on.
    pub fn is_enabled(&self) -> (r: bool)
        ensures
            r == self.paints(),
    {
        self.enabled
    }
}

} // verus!
