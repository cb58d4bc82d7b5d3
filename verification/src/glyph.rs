//! The glyphs in which on-screen text is set: one per supported character,
//! and one that stands for every character the font lacks.

use vstd::prelude::*;
use vstd::string::*;

verus! {

/// A glyph of the editor's font. The number in a letter or a digit counts from
/// the first of its kind: `Upper(0)` is `A`, `Lower(25)` is `z`, `Digit(7)` is
/// `7`.
#[derive(Clone, Copy, Debug, PartialEq, Eq, Hash, Structural)]
pub enum Glyph {
    Upper(u8),
    Lower(u8),
    Digit(u8),
    Space,
    Colon,
    Semicolon,
    Minus,
    LeftParen,
    RightParen,
    Star,
    Period,
    Slash,
    Underscore,
    /// The glyph shown for a character that the font has no glyph for.
    Unsupported,
}

/// How many slots a table with one entry for each glyph has.
pub const GLYPH_SLOTS: usize = 73;

/// Whether `c` is white space: the characters that Unicode gives the property
/// White_Space.
pub open spec fn is_white_space(c: char) -> bool {
    let n = c as u32;
    ||| 0x09 <= n <= 0x0D
    ||| n == 0x20
    ||| n == 0x85
    ||| n == 0xA0
    ||| n == 0x1680
    ||| 0x2000 <= n <= 0x200A
    ||| n == 0x2028
    ||| n == 0x2029
    ||| n == 0x202F
    ||| n == 0x205F
    ||| n == 0x3000
}

/// The glyph that stands for the character `c`.
pub open spec fn glyph_of(c: char) -> Glyph {
    let n = c as u32;
    if 0x41 <= n <= 0x5A {
        Glyph::Upper((n - 0x41) as u8)
    } else if 0x61 <= n <= 0x7A {
        Glyph::Lower((n - 0x61) as u8)
    } else if 0x30 <= n <= 0x39 {
        Glyph::Digit((n - 0x30) as u8)
    } else if is_white_space(c) {
        Glyph::Space
    } else if c == ':' {
        Glyph::Colon
    } else if c == ';' {
        Glyph::Semicolon
    } else if c == '-' {
        Glyph::Minus
    } else if c == '(' {
        Glyph::LeftParen
    } else if c == ')' {
        Glyph::RightParen
    } else if c == '*' {
        Glyph::Star
    } else if c == '.' {
        Glyph::Period
    } else if c == '/' {
        Glyph::Slash
    } else if c == '_' {
        Glyph::Underscore
    } else {
        Glyph::Unsupported
    }
}

impl Glyph {
    /// Whether the glyph names a letter of the alphabet or a decimal digit
    /// that exists.
    pub open spec fn wf(self) -> bool {
        match self {
            Glyph::Upper(i) => i < 26,
            Glyph::Lower(i) => i < 26,
            Glyph::Digit(i) => i < 10,
            _ => true,
        }
    }

    /// The glyph's place in a table of all glyphs. A letter or a digit that
    /// does not exist has the place of the glyph for unsupported characters.
    pub open spec fn spec_slot(self) -> nat {
        match self {
            Glyph::Upper(i) => if i < 26 {
                i as nat
            } else {
                72
            },
            Glyph::Lower(i) => if i < 26 {
                26 + i as nat
            } else {
                72
            },
            Glyph::Digit(i) => if i < 10 {
                52 + i as nat
            } else {
                72
            },
            Glyph::Space => 62,
            Glyph::Colon => 63,
            Glyph::Semicolon => 64,
            Glyph::Minus => 65,
            Glyph::LeftParen => 66,
            Glyph::RightParen => 67,
            Glyph::Star => 68,
            Glyph::Period => 69,
            Glyph::Slash => 70,
            Glyph::Underscore => 71,
            Glyph::Unsupported => 72,
        }
    }

    /// The glyph that stands for the character `c`.
    pub fn of(c: char) -> (g: Glyph)
        ensures
            g == glyph_of(c),
            g.wf(),
    {
        let n: u32 = c as u32;
        if 0x41 <= n && n <= 0x5A {
            Glyph::Upper((n - 0x41) as u8)
        } else if 0x61 <= n && n <= 0x7A {
            Glyph::Lower((n - 0x61) as u8)
        } else if 0x30 <= n && n <= 0x39 {
            Glyph::Digit((n - 0x30) as u8)
        } else if (0x09 <= n && n <= 0x0D) || n == 0x20 || n == 0x85 || n == 0xA0 || n == 0x1680
            || (0x2000 <= n && n <= 0x200A) || n == 0x2028 || n == 0x2029 || n == 0x202F || n
            == 0x205F || n == 0x3000 {
            Glyph::Space
        } else if c == ':' {
            Glyph::Colon
        } else if c == ';' {
            Glyph::Semicolon
        } else if c == '-' {
            Glyph::Minus
        } else if c == '(' {
            Glyph::LeftParen
        } else if c == ')' {
            Glyph::RightParen
        } else if c == '*' {
            Glyph::Star
        } else if c == '.' {
            Glyph::Period
        } else if c == '/' {
            Glyph::Slash
        } else if c == '_' {
            Glyph::Underscore
        } else {
            Glyph::Unsupported
        }
    }

    /// The glyph's place in a table of all glyphs: below `GLYPH_SLOTS`, and
    /// a different one for each glyph that exists.
    pub fn slot(&self) -> (s: usize)
        ensures
            s == self.spec_slot(),
            s < GLYPH_SLOTS,
    {
        match *self {
            Glyph::Upper(i) => if i < 26 {
                i as usize
            } else {
                72
            },
            Glyph::Lower(i) => if i < 26 {
                26 + i as usize
            } else {
                72
            },
            Glyph::Digit(i) => if i < 10 {
                52 + i as usize
            } else {
                72
            },
            Glyph::Space => 62,
            Glyph::Colon => 63,
            Glyph::Semicolon => 64,
            Glyph::Minus => 65,
            Glyph::LeftParen => 66,
            Glyph::RightParen => 67,
            Glyph::Star => 68,
            Glyph::Period => 69,
            Glyph::Slash => 70,
            Glyph::Underscore => 71,
            Glyph::Unsupported => 72,
        }
    }
}

/// The capital letters in order.
pub open spec fn capitals() -> Seq<char> {
    "ABCDEFGHIJKLMNOPQRSTUVWXYZ"@
}

/// The small letters in order.
pub open spec fn smalls() -> Seq<char> {
    "abcdefghijklmnopqrstuvwxyz"@
}

/// The decimal digits in order.
pub open spec fn digits() -> Seq<char> {
    "0123456789"@
}

/// The name under which a glyph's picture is kept. A capital letter and a
/// digit are kept under themselves, a small letter under itself and `_lower`,
/// every other glyph under a word. The glyph that stands for unsupported
/// characters has no picture, nor has a letter or a digit that does not exist.
pub open spec fn asset_name_of(g: Glyph) -> Option<Seq<char>> {
    match g {
        Glyph::Upper(i) => if i < 26 {
            Some(capitals().subrange(i as int, i + 1))
        } else {
            None
        },
        Glyph::Lower(i) => if i < 26 {
            Some(smalls().subrange(i as int, i + 1) + "_lower"@)
        } else {
            None
        },
        Glyph::Digit(i) => if i < 10 {
            Some(digits().subrange(i as int, i + 1))
        } else {
            None
        },
        Glyph::Space => Some("space"@),
        Glyph::Colon => Some("colon"@),
        Glyph::Semicolon => Some("semicolon"@),
        Glyph::Minus => Some("minus"@),
        Glyph::LeftParen => Some("lparen"@),
        Glyph::RightParen => Some("rparen"@),
        Glyph::Star => Some("star"@),
        Glyph::Period => Some("period"@),
        Glyph::Slash => Some("forward_slash"@),
        Glyph::Underscore => Some("underscore"@),
        Glyph::Unsupported => None,
    }
}

/// The path of the file that holds a glyph's picture: in the directory of
/// images beside the program's, the glyph's name, and `.png`.
pub open spec fn asset_path_of(g: Glyph) -> Option<Seq<char>> {
    match asset_name_of(g) {
        Some(name) => Some("../images/"@ + name + ".png"@),
        None => None,
    }
}

/// One character of an alphabet, as a string.
fn letter(alphabet: &'static str, i: u8) -> (s: &'static str)
    requires
        alphabet.is_ascii(),
        i < alphabet@.len(),
    ensures
        s@ == alphabet@.subrange(i as int, i + 1),
{
    alphabet.substring_ascii(i as usize, i as usize + 1)
}

impl Glyph {
    /// The name under which the glyph's picture is kept, if it has one.
    pub fn asset_name(&self) -> (name: Option<String>)
        ensures
            match asset_name_of(*self) {
                Some(n) => name is Some && name->Some_0@ == n,
                None => name is None,
            },
    {
        proof {
            reveal_strlit("ABCDEFGHIJKLMNOPQRSTUVWXYZ");
            reveal_strlit("abcdefghijklmnopqrstuvwxyz");
            reveal_strlit("0123456789");
        }
        match *self {
            Glyph::Upper(i) => if i < 26 {
                Some(String::from_str(letter("ABCDEFGHIJKLMNOPQRSTUVWXYZ", i)))
            } else {
                None
            },
            Glyph::Lower(i) => if i < 26 {
                Some(String::from_str(letter("abcdefghijklmnopqrstuvwxyz", i)).concat("_lower"))
            } else {
                None
            },
            Glyph::Digit(i) => if i < 10 {
                Some(String::from_str(letter("0123456789", i)))
            } else {
                None
            },
            Glyph::Space => Some(String::from_str("space")),
            Glyph::Colon => Some(String::from_str("colon")),
            Glyph::Semicolon => Some(String::from_str("semicolon")),
            Glyph::Minus => Some(String::from_str("minus")),
            Glyph::LeftParen => Some(String::from_str("lparen")),
            Glyph::RightParen => Some(String::from_str("rparen")),
            Glyph::Star => Some(String::from_str("star")),
            Glyph::Period => Some(String::from_str("period")),
            Glyph::Slash => Some(String::from_str("forward_slash")),
            Glyph::Underscore => Some(String::from_str("underscore")),
            Glyph::Unsupported => None,
        }
    }

    /// The path of the file that holds the glyph's picture, if it has one.
    pub fn asset_path(&self) -> (path: Option<String>)
        ensures
            match asset_path_of(*self) {
                Some(p) => path is Some && path->Some_0@ == p,
                None => path is None,
            },
    {
        match self.asset_name() {
            Some(name) => Some(String::from_str("../images/").concat(name.as_str()).concat(".png")),
            None => None,
        }
    }
}

/// The glyphs that set `text`: one for each character, in order. A character
/// without a glyph of its own is set as `Glyph::Unsupported`.
pub fn glyphs(text: &str) -> (line: Vec<Glyph>)
    ensures
        line@.len() == text@.len(),
        forall|i: int| 0 <= i < text@.len() ==> line@[i] == glyph_of(text@[i]),
        forall|i: int| 0 <= i < text@.len() ==> (#[trigger] line@[i]).wf(),
{
    let n: usize = text.unicode_len();
    let mut line: Vec<Glyph> = Vec::new();
    let mut i: usize = 0;
    while i < n
        invariant
            n == text@.len(),
            i <= n,
            line@.len() == i,
            forall|j: int| 0 <= j < i ==> line@[j] == glyph_of(text@[j]),
            forall|j: int| 0 <= j < i ==> (#[trigger] line@[j]).wf(),
        decreases n - i,
    {
        line.push(Glyph::of(text.get_char(i)));
        i += 1;
    }
    line
}

/// Two well-formed glyphs with the same slot are the same glyph.
pub proof fn lemma_slot_injective(a: Glyph, b: Glyph)
    requires
        a.wf(),
        b.wf(),
        a.spec_slot() == b.spec_slot(),
    ensures
        a == b,
{
}

} // verus!
