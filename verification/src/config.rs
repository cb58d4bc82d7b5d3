//! The command line: which file a session is on, and whether it begins with
//! the file's grid or with a blank one.

use vstd::prelude::*;
use vstd::string::*;
use crate::codec::Format;

verus! {

/// What is wrong with a command line.
#[derive(Clone, Copy, Debug, PartialEq, Eq, Structural)]
pub enum ConfigError {
    /// The arguments are neither a file, nor a file, `-d` and a size: a file
    /// path must be given.
    MissingPath,
    /// The file's name does not end in the extension of the format.
    InvalidFileType,
    /// The size is no whole number from 1 up.
    InvalidSize,
}

/// What a command line asks for.
#[derive(Debug, PartialEq, Eq)]
pub enum Launch {
    /// Begin with the grid in the file at `path`, and save there.
    Open { path: String },
    /// Begin with a blank grid of `side` by `side` cells, whatever the file at
    /// `path` holds, and save there.
    Blank { path: String, side: usize },
}

/// What a command line asks for, with the path as a sequence of characters.
pub enum LaunchPlan {
    Open { path: Seq<char> },
    Blank { path: Seq<char>, side: usize },
}

impl View for Launch {
    type V = LaunchPlan;

    open spec fn view(&self) -> LaunchPlan {
        match *self {
            Launch::Open { path } => LaunchPlan::Open { path: path@ },
            Launch::Blank { path, side } => LaunchPlan::Blank { path: path@, side },
        }
    }
}

/// Whether the file name at the end of `path` is a stem, a dot and `ext`.
pub open spec fn has_extension(path: Seq<char>, ext: Seq<char>) -> bool {
    let n = path.len() as int;
    let e = ext.len() as int;
    &&& n >= e + 2
    &&& path.subrange(n - e, n) == ext
    &&& path[n - e - 1] == '.'
    &&& path[n - e - 2] != '/'
}

/// Whether `c` is a decimal digit.
pub open spec fn is_decimal_digit(c: char) -> bool {
    48 <= c as u32 <= 57
}

/// The value of the digit `c`, and 0 for what is no digit.
pub open spec fn digit_of(c: char) -> nat {
    if is_decimal_digit(c) {
        (c as u32 - 48) as nat
    } else {
        0
    }
}

/// The number that the digits `t` write in decimal.
pub open spec fn number_value(t: Seq<char>) -> nat
    decreases t.len(),
{
    if t.len() == 0 {
        0
    } else {
        10 * number_value(t.drop_last()) + digit_of(t.last())
    }
}

/// The digits of the word `t`: the word without the plus sign that may stand
/// before them.
pub open spec fn unsigned(t: Seq<char>) -> Seq<char> {
    if t.len() >= 1 && t[0] == '+' {
        t.skip(1)
    } else {
        t
    }
}

/// The size that the word `t` writes: decimal digits, with or without a plus
/// sign before them, that make a number from 1 up to the largest that the
/// machine holds.
pub open spec fn side_of(t: Seq<char>) -> Option<usize> {
    let d = unsigned(t);
    if d.len() >= 1 && (forall|i: int| 0 <= i < d.len() ==> is_decimal_digit(#[trigger] d[i])) && 1
        <= number_value(d) <= usize::MAX {
        Some(number_value(d) as usize)
    } else {
        None
    }
}

/// What the arguments `args`, the program's name first, ask for.
///
/// `program <file>` opens the file; `program <file> -d <N>` begins a blank
/// grid of `N` by `N` cells; every other shape lacks the file path. The file's
/// name must end in the format's extension.
pub open spec fn launch_of(args: Seq<Seq<char>>, format: Format) -> Result<
    LaunchPlan,
    ConfigError,
> {
    if args.len() == 2 {
        if has_extension(args[1], format.spec_extension()) {
            Ok(LaunchPlan::Open { path: args[1] })
        } else {
            Err(ConfigError::InvalidFileType)
        }
    } else if args.len() == 4 && args[2] == "-d"@ {
        match side_of(args[3]) {
            None => Err(ConfigError::InvalidSize),
            Some(side) => if has_extension(args[1], format.spec_extension()) {
                Ok(LaunchPlan::Blank { path: args[1], side })
            } else {
                Err(ConfigError::InvalidFileType)
            },
        }
    } else {
        Err(ConfigError::MissingPath)
    }
}

/// What each of `args` holds, as a sequence of characters.
pub open spec fn arg_texts(args: Seq<String>) -> Seq<Seq<char>> {
    Seq::new(args.len(), |i: int| args[i]@)
}

/// The digits at the start of a number write no more than all of them.
pub proof fn lemma_prefix_value(t: Seq<char>, i: int)
    requires
        0 <= i <= t.len(),
    ensures
        number_value(t.take(i)) <= number_value(t),
    decreases t.len(),
{
    if i == t.len() {
        assert(t.take(i) =~= t);
    } else {
        lemma_prefix_value(t.drop_last(), i);
        assert(t.drop_last().take(i) =~= t.take(i));
    }
}

/// Whether the file name at the end of `path` is a stem, a dot and `ext`.
pub fn ends_with_extension(path: &str, ext: &str) -> (r: bool)
    ensures
        r == has_extension(path@, ext@),
{
    let n: usize = path.unicode_len();
    let e: usize = ext.unicode_len();
    if n < 2 || n - 2 < e {
        return false;
    }
    let from: usize = n - e;
    let mut i: usize = 0;
    while i < e
        invariant
            n == path@.len(),
            e == ext@.len(),
            from == n - e,
            e + 2 <= n,
            i <= e,
            forall|j: int| 0 <= j < i ==> path@[from + j] == ext@[j],
        decreases e - i,
    {
        if path.get_char(from + i) != ext.get_char(i) {
            assert(path@.subrange(n - e, n as int)[i as int] != ext@[i as int]);
            return false;
        }
        i += 1;
    }
    assert(path@.subrange(n - e, n as int) =~= ext@);
    path.get_char(from - 1) == '.' && path.get_char(from - 2) != '/'
}

/// The size that `word` writes, if it writes one.
pub fn parse_side(word: &str) -> (r: Option<usize>)
    ensures
        r == side_of(word@),
{
    let n: usize = word.unicode_len();
    if n == 0 {
        return None;
    }
    let start: usize = if word.get_char(0) == '+' {
        1
    } else {
        0
    };
    if start == n {
        return None;
    }
    let ghost digits = unsigned(word@);
    let mut value: usize = 0;
    let mut i: usize = start;
    proof {
        assert(digits =~= word@.skip(start as int));
        assert(digits.take(0) =~= Seq::<char>::empty());
    }
    while i < n
        invariant
            n == word@.len(),
            start <= i <= n,
            digits == unsigned(word@),
            digits == word@.skip(start as int),
            value == number_value(digits.take(i - start)),
            forall|j: int| 0 <= j < i - start ==> is_decimal_digit(#[trigger] digits[j]),
        decreases n - i,
    {
        let c: char = word.get_char(i);
        let code: u32 = c as u32;
        assert(digits[i - start] == c);
        if code < 48 || code > 57 {
            return None;
        }
        proof {
            let next = digits.take(i - start + 1);
            assert(next.drop_last() =~= digits.take(i - start));
            assert(next.last() == c);
            lemma_prefix_value(digits, i - start + 1);
        }
        let digit: usize = (code - 48) as usize;
        let tens: usize = match value.checked_mul(10) {
            Some(v) => v,
            None => {
                return None;
            },
        };
        value =
        match tens.checked_add(digit) {
            Some(v) => v,
            None => {
                return None;
            },
        };
        i += 1;
    }
    proof {
        assert(digits.take(n - start) =~= digits);
    }
    if value == 0 {
        None
    } else {
        Some(value)
    }
}

/// Whether `word` is the flag that stands before the size: `-d`.
pub fn is_size_flag(word: &str) -> (r: bool)
    ensures
        r == (word@ == "-d"@),
{
    proof {
        reveal_strlit("-d");
    }
    if word.unicode_len() != 2 {
        return false;
    }
    let r: bool = word.get_char(0) == '-' && word.get_char(1) == 'd';
    proof {
        if r {
            assert(word@ =~= "-d"@);
        }
    }
    r
}

/// What the arguments `args`, the program's name first, ask for; or what is
/// wrong with them.
pub fn parse_args(args: &Vec<String>, format: Format) -> (r: Result<Launch, ConfigError>)
    ensures
        match launch_of(arg_texts(args@), format) {
            Ok(plan) => r is Ok && r->Ok_0@ == plan,
            Err(e) => r == Err::<Launch, ConfigError>(e),
        },
{
    if args.len() == 2 {
        if ends_with_extension(args[1].as_str(), format.extension()) {
            Ok(Launch::Open { path: args[1].clone() })
        } else {
            Err(ConfigError::InvalidFileType)
        }
    } else if args.len() == 4 && is_size_flag(args[2].as_str()) {
        match parse_side(args[3].as_str()) {
            None => Err(ConfigError::InvalidSize),
            Some(side) => if ends_with_extension(args[1].as_str(), format.extension()) {
                Ok(Launch::Blank { path: args[1].clone(), side })
            } else {
                Err(ConfigError::InvalidFileType)
            },
        }
    } else {
        Err(ConfigError::MissingPath)
    }
}

} // verus!
