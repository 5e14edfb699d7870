//! The command line: flags, each with a value.

use vstd::prelude::*;
use vstd::string::StrSliceExecFns;
use crate::color::{color_from_hex, color_of};
use crate::game::Color;
use crate::{ArgError, CellType, ErrorKind};

verus! {

/// What the command line sets.
#[derive(Debug)]
pub struct Args {
    pub alive_color: Color,
    pub dead_color: Color,
    pub delay: u64,
    pub cell_type: CellType,
}

/// What is to be done once the command line has been read.
#[derive(Debug, Clone, Copy, PartialEq, Eq, Structural)]
pub enum Parsed {
    /// Run with the settings read.
    Ready,
    /// The usage was asked for: the tokens behind that flag were not read.
    HelpWanted,
}

/// The settings that hold where the command line sets nothing.
pub open spec fn default_args() -> Args {
    Args { alive_color: None, dead_color: None, delay: 100, cell_type: CellType::Small }
}

/// The cell type that a word names.
pub open spec fn cell_type_of(s: Seq<char>) -> Option<CellType> {
    if s == "big"@ {
        Some(CellType::Big)
    } else if s == "small"@ {
        Some(CellType::Small)
    } else if s == "braille"@ {
        Some(CellType::Braille)
    } else {
        None
    }
}

/// The value of a decimal digit.
pub open spec fn digit_value(c: char) -> Option<nat> {
    if '0' <= c <= '9' {
        Some((c as nat - '0' as nat) as nat)
    } else {
        None
    }
}

/// Whether every character is a decimal digit.
pub open spec fn all_digits(digits: Seq<char>) -> bool {
    forall|i: int| 0 <= i < digits.len() ==> (#[trigger] digit_value(digits[i])) is Some
}

/// The number that decimal digits spell.
pub open spec fn digits_value(digits: Seq<char>) -> nat
    decreases digits.len(),
{
    if digits.len() == 0 {
        0
    } else {
        10 * digits_value(digits.drop_last()) + digit_value(digits.last()).unwrap()
    }
}

/// The delay that a text spells: decimal digits, at least one, with or
/// without a `+` in front, whose number fits 64 bits.
pub open spec fn delay_of(s: Seq<char>) -> Option<u64> {
    let digits = if s.len() > 0 && s[0] == '+' {
        s.subrange(1, s.len() as int)
    } else {
        s
    };
    if digits.len() > 0 && all_digits(digits) && digits_value(digits) <= u64::MAX {
        Some(digits_value(digits) as u64)
    } else {
        None
    }
}

/// Whether a token begins with a hyphen, as flags do.
pub open spec fn looks_like_flag(token: Seq<char>) -> bool {
    token.len() > 0 && token[0] == '-'
}

/// The settings after a flag has been given its value, or why the pair was
/// turned down.
pub open spec fn apply_flag(args: Args, flag: Seq<char>, value: Seq<char>) -> Result<Args, (ErrorKind, Seq<char>)> {
    if flag == "-c"@ || flag == "--cell-type"@ {
        match cell_type_of(value) {
            Some(cell_type) => Ok(Args { cell_type, ..args }),
            None => Err((ErrorKind::UnknownCellType, value)),
        }
    } else if flag == "-d"@ || flag == "--delay"@ {
        match delay_of(value) {
            Some(delay) => Ok(Args { delay, ..args }),
            None => Err((ErrorKind::InvalidNumber, value)),
        }
    } else if flag == "-ac"@ || flag == "--alive-color"@ {
        match color_of(value) {
            Some(rgb) => Ok(Args { alive_color: Some(rgb), ..args }),
            None => Err((ErrorKind::InvalidColor, value)),
        }
    } else if flag == "-dc"@ || flag == "--dead-color"@ {
        match color_of(value) {
            Some(rgb) => Ok(Args { dead_color: Some(rgb), ..args }),
            None => Err((ErrorKind::InvalidColor, value)),
        }
    } else {
        Err((ErrorKind::UnknownFlag, flag))
    }
}

/// Reading the tokens from position `at` on, pair by pair: the settings at
/// the end, and how the reading ended. A refused pair leaves the settings as
/// the pairs before it made them.
pub open spec fn parse_from(args: Args, tokens: Seq<Seq<char>>, at: int) -> (Args, Result<Parsed, (ErrorKind, Seq<char>)>)
    decreases tokens.len() - at,
{
    if at < 0 || at >= tokens.len() {
        (args, Ok(Parsed::Ready))
    } else if tokens[at] == "-h"@ || tokens[at] == "--help"@ {
        (args, Ok(Parsed::HelpWanted))
    } else if !looks_like_flag(tokens[at]) {
        (args, Err((ErrorKind::UnexpectedArgument, tokens[at])))
    } else if at + 1 >= tokens.len() {
        (args, Err((ErrorKind::MissingValue, tokens[at])))
    } else if tokens[at + 1].len() == 0 || looks_like_flag(tokens[at + 1]) {
        (args, Err((ErrorKind::IncorrectValue, tokens[at + 1])))
    } else {
        match apply_flag(args, tokens[at], tokens[at + 1]) {
            Ok(next) => parse_from(next, tokens, at + 2),
            Err(e) => (args, Err(e)),
        }
    }
}

/// The tokens of a command line as texts.
pub open spec fn texts_of(tokens: &Vec<String>) -> Seq<Seq<char>> {
    Seq::new(tokens@.len(), |i: int| tokens@[i]@)
}

/// Whether a result is the one that a model of it describes.
pub open spec fn result_is<T>(r: Result<T, ArgError>, model: Result<T, (ErrorKind, Seq<char>)>) -> bool {
    match model {
        Ok(value) => r == Ok::<T, ArgError>(value),
        Err((kind, token)) => r matches Err(e) && e.reports(kind, token),
    }
}

/// Whether two texts are the same.
pub fn same_text(a: &str, b: &str) -> (same: bool)
    ensures
        same == (a@ == b@),
{
    let n = a.unicode_len();
    if n != b.unicode_len() {
        return false;
    }
    let mut i: usize = 0;
    while i < n
        invariant
            i <= n == a@.len() == b@.len(),
            forall|k: int| 0 <= k < i ==> a@[k] == b@[k],
        decreases n - i,
    {
        if a.get_char(i) != b.get_char(i) {
            return false;
        }
        i += 1;
    }
    assert(a@ =~= b@);
    true
}

/// Whether a token begins with a hyphen.
pub fn starts_with_hyphen(token: &str) -> (r: bool)
    ensures
        r == looks_like_flag(token@),
{
    token.unicode_len() > 0 && token.get_char(0) == '-'
}

proof fn lemma_value_grows(digits: Seq<char>, k: int)
    requires
        all_digits(digits),
        0 <= k <= digits.len(),
    ensures
        digits_value(digits.take(k)) <= digits_value(digits),
    decreases digits.len() - k,
{
    if k == digits.len() {
        assert(digits.take(k) =~= digits);
    } else {
        assert(digits.take(k + 1).drop_last() =~= digits.take(k));
        assert(digit_value(digits[k]) is Some);
        lemma_value_grows(digits, k + 1);
    }
}

/// Reads the cell type: `big`, `small` or `braille`.
pub fn parse_cell_type(s: &str) -> (r: Result<CellType, ArgError>)
    ensures
        match cell_type_of(s@) {
            Some(cell_type) => r == Ok::<CellType, ArgError>(cell_type),
            None => r matches Err(e) && e.reports(ErrorKind::UnknownCellType, s@),
        },
{
    if same_text(s, "big") {
        Ok(CellType::Big)
    } else if same_text(s, "small") {
        Ok(CellType::Small)
    } else if same_text(s, "braille") {
        Ok(CellType::Braille)
    } else {
        Err(ArgError { kind: ErrorKind::UnknownCellType, token: s.to_owned() })
    }
}

/// Reads the delay between two frames, in milliseconds.
pub fn parse_delay(s: &str) -> (r: Result<u64, ArgError>)
    ensures
        match delay_of(s@) {
            Some(delay) => r == Ok::<u64, ArgError>(delay),
            None => r matches Err(e) && e.reports(ErrorKind::InvalidNumber, s@),
        },
{
    let total = s.unicode_len();
    let first: usize = if total > 0 && s.get_char(0) == '+' { 1 } else { 0 };
    let ghost digits = s@.subrange(first as int, total as int);
    let ghost spelled = if s@.len() > 0 && s@[0] == '+' {
        s@.subrange(1, s@.len() as int)
    } else {
        s@
    };
    assert(digits =~= spelled);
    if first == total {
        return Err(ArgError { kind: ErrorKind::InvalidNumber, token: s.to_owned() });
    }
    let mut value: u64 = 0;
    let mut i: usize = first;
    assert(digits.take(0) =~= Seq::<char>::empty());
    while i < total
        invariant
            first <= i <= total == s@.len(),
            digits == s@.subrange(first as int, total as int),
            digits == spelled,
            spelled == if s@.len() > 0 && s@[0] == '+' {
                s@.subrange(1, s@.len() as int)
            } else {
                s@
            },
            all_digits(digits.take(i - first)),
            value == digits_value(digits.take(i - first)),
        decreases total - i,
    {
        let c = s.get_char(i);
        assert(digits[i - first] == c);
        if !('0' <= c && c <= '9') {
            assert(digit_value(digits[i - first]) is None);
            assert(!all_digits(digits));
            return Err(ArgError { kind: ErrorKind::InvalidNumber, token: s.to_owned() });
        }
        let d: u64 = (c as u8 - '0' as u8) as u64;
        proof {
            assert(digits.take(i - first + 1).drop_last() =~= digits.take(i - first));
            assert(digits.take(i - first + 1).last() == c);
            assert(all_digits(digits.take(i - first + 1))) by {
                assert forall|k: int| 0 <= k < i - first + 1 implies (#[trigger] digit_value(
                    digits.take(i - first + 1)[k],
                )) is Some by {
                    if k < i - first {
                        assert(digits.take(i - first)[k] == digits.take(i - first + 1)[k]);
                    }
                }
            }
        }
        if value > (u64::MAX - d) / 10 {
            proof {
                assert(digits_value(digits.take(i - first + 1)) > u64::MAX);
                if all_digits(digits) {
                    lemma_value_grows(digits, i - first + 1);
                }
            }
            return Err(ArgError { kind: ErrorKind::InvalidNumber, token: s.to_owned() });
        }
        value = value * 10 + d;
        i += 1;
    }
    assert(digits.take(total - first) =~= digits);
    Ok(value)
}

/// Reads a colour.
pub fn parse_color(s: &str) -> (r: Result<(u8, u8, u8), ArgError>)
    ensures
        match color_of(s@) {
            Some(rgb) => r == Ok::<(u8, u8, u8), ArgError>(rgb),
            None => r matches Err(e) && e.reports(ErrorKind::InvalidColor, s@),
        },
{
    color_from_hex(s)
}

impl Args {
    /// The settings that hold where the command line sets nothing: no
    /// colours, a tenth of a second between frames, small cells.
    pub fn new() -> (args: Self)
        ensures
            args == default_args(),
    {
        Self { alive_color: None, dead_color: None, delay: 100, cell_type: CellType::Small }
    }

    /// Reads the tokens of a command line, the program's name left out: a
    /// flag, its value, and so on, until the tokens end, a pair is turned
    /// down, or the usage is asked for.
    pub fn parse(&mut self, cmd_args: &Vec<String>) -> (r: Result<Parsed, ArgError>)
        ensures
            *final(self) == parse_from(*old(self), texts_of(cmd_args), 0).0,
            result_is(r, parse_from(*old(self), texts_of(cmd_args), 0).1),
    {
        let ghost tokens = texts_of(cmd_args);
        let ghost start = *self;
        let mut at: usize = 0;
        while at < cmd_args.len()
            invariant
                tokens == texts_of(cmd_args),
                start == *old(self),
                at <= cmd_args@.len() + 1,
                parse_from(*self, tokens, at as int) == parse_from(start, tokens, 0),
            decreases cmd_args@.len() + 1 - at,
        {
            let arg = cmd_args[at].as_str();
            assert(tokens[at as int] == arg@);
            if same_text(arg, "-h") || same_text(arg, "--help") {
                return Ok(Parsed::HelpWanted);
            }
            if !starts_with_hyphen(arg) {
                return Err(ArgError { kind: ErrorKind::UnexpectedArgument, token: arg.to_owned() });
            }
            if at + 1 >= cmd_args.len() {
                return Err(ArgError { kind: ErrorKind::MissingValue, token: arg.to_owned() });
            }
            let value = cmd_args[at + 1].as_str();
            assert(tokens[at + 1] == value@);
            if value.unicode_len() == 0 || starts_with_hyphen(value) {
                return Err(ArgError { kind: ErrorKind::IncorrectValue, token: value.to_owned() });
            }
            match self.set_value_by_flag(arg, value) {
                Ok(()) => {},
                Err(e) => {
                    return Err(e);
                },
            }
            at += 2;
        }
        Ok(Parsed::Ready)
    }

    /// Gives a flag its value.
    pub fn set_value_by_flag(&mut self, flag: &str, value: &str) -> (r: Result<(), ArgError>)
        ensures
            *final(self) == match apply_flag(*old(self), flag@, value@) {
                Ok(next) => next,
                Err(_) => *old(self),
            },
            match apply_flag(*old(self), flag@, value@) {
                Ok(_) => r is Ok,
                Err((kind, token)) => r matches Err(e) && e.reports(kind, token),
            },
    {
        if same_text(flag, "-c") || same_text(flag, "--cell-type") {
            match parse_cell_type(value) {
                Ok(cell_type) => {
                    self.cell_type = cell_type;
                },
                Err(e) => {
                    return Err(e);
                },
            }
        } else if same_text(flag, "-d") || same_text(flag, "--delay") {
            match parse_delay(value) {
                Ok(delay) => {
                    self.delay = delay;
                },
                Err(e) => {
                    return Err(e);
                },
            }
        } else if same_text(flag, "-ac") || same_text(flag, "--alive-color") {
            match parse_color(value) {
                Ok(rgb) => {
                    self.alive_color = Some(rgb);
                },
                Err(e) => {
                    return Err(e);
                },
            }
        } else if same_text(flag, "-dc") || same_text(flag, "--dead-color") {
            match parse_color(value) {
                Ok(rgb) => {
                    self.dead_color = Some(rgb);
                },
                Err(e) => {
                    return Err(e);
                },
            }
        } else {
            return Err(ArgError { kind: ErrorKind::UnknownFlag, token: flag.to_owned() });
        }
        Ok(())
    }
}

} // verus!
