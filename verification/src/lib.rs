//! Conway's Game of Life for the terminal: the board, its transition rule,
//! reseeding on stagnation, and three glyph encodings of a frame.

use vstd::prelude::*;
use vstd::string::StringExecFns;

pub mod args;
pub mod blocks;
pub mod braille;
pub mod color;
pub mod game;
pub mod render;

pub use crate::blocks::split_into_parts;
pub use crate::braille::braillize;
pub use crate::color::color_from_hex;

verus! {

/// How many cells one terminal character shows.
#[derive(Debug, Clone, Copy, PartialEq, Eq, Structural)]
pub enum CellType {
    /// One cell takes two characters.
    Big,
    /// Two cells, one above the other, share a character.
    Small,
    /// Eight cells, four rows of two, share a braille character.
    Braille,
}

/// Why a command line, or one of its values, was turned down.
#[derive(Debug, Clone, Copy, PartialEq, Eq, Structural)]
pub enum ErrorKind {
    /// A token stood where a flag was expected.
    UnexpectedArgument,
    /// A flag's value was empty or looked like a flag.
    IncorrectValue,
    /// The last flag had no value behind it.
    MissingValue,
    /// The flag is not one of the known ones.
    UnknownFlag,
    /// The cell type is none of `big`, `small`, `braille`.
    UnknownCellType,
    /// The delay is not a decimal number that fits 64 bits.
    InvalidNumber,
    /// The colour is not three or six hexadecimal digits.
    InvalidColor,
}

/// A refusal, with the token that caused it.
#[derive(Debug, PartialEq, Eq)]
pub struct ArgError {
    pub kind: ErrorKind,
    pub token: String,
}

/// What a message says before it quotes the token.
pub open spec fn message_prefix(kind: ErrorKind) -> Seq<char> {
    match kind {
        ErrorKind::UnexpectedArgument => "Unexpected argument: '"@,
        ErrorKind::IncorrectValue => "Incorrect argument value: '"@,
        ErrorKind::MissingValue => "Missing value for argument: '"@,
        ErrorKind::UnknownFlag => "Unknown flag: '"@,
        ErrorKind::UnknownCellType => "Unknown cell type: '"@,
        ErrorKind::InvalidNumber => "Invalid number: '"@,
        ErrorKind::InvalidColor => "Invalid hex color: '"@,
    }
}

/// What a message says behind the token.
pub open spec fn message_suffix(kind: ErrorKind) -> Seq<char> {
    match kind {
        ErrorKind::UnexpectedArgument => "'\nA flag was expected"@,
        _ => "'"@,
    }
}

/// The message for the user: the reason, with the token in quotes.
pub open spec fn message_text(kind: ErrorKind, token: Seq<char>) -> Seq<char> {
    message_prefix(kind) + token + message_suffix(kind)
}

/// The usage, as the flag `--help` shows it.
pub const USAGE: &'static str = "\x1b[1mCLI Game of Life screensaver\x1b[0m\n\n\x1b[1mUsage:\x1b[0m\n  goool [-c | --cell-type <cell type>] [-d | --delay <time in ms>] [--alive-color <rgb in hex>] [--dead-color <rgb in hex>]\n\n\x1b[1mOptions:\x1b[0m\n  -c, --cell-type     Cell size.\n                        'big'     - 2 characters per cell.\n                        'small'   - 2 cells in 1 character.\n                        'braille' - 8 cells in 1 character.\n  -d, --delay         Delay between updates in milliseconds.\n  -ac, --alive-color  Color of alive cells (e.g. e7c27d, 8a8)\n  -dc, --dead-color   Color of alive cells (e.g. 182020, 000)\n";

/// The usage, ready to be shown.
pub fn print_full_help() -> (text: String)
    ensures
        text@ == USAGE@,
{
    USAGE.to_owned()
}

impl ArgError {
    /// Whether this is the refusal of `token` for the reason `kind`.
    pub open spec fn reports(&self, kind: ErrorKind, token: Seq<char>) -> bool {
        self.kind == kind && self.token@ == token
    }

    /// The message for the user.
    pub fn message(&self) -> (text: String)
        ensures
            text@ == message_text(self.kind, self.token@),
    {
        let prefix = match self.kind {
            ErrorKind::UnexpectedArgument => "Unexpected argument: '",
            ErrorKind::IncorrectValue => "Incorrect argument value: '",
            ErrorKind::MissingValue => "Missing value for argument: '",
            ErrorKind::UnknownFlag => "Unknown flag: '",
            ErrorKind::UnknownCellType => "Unknown cell type: '",
            ErrorKind::InvalidNumber => "Invalid number: '",
            ErrorKind::InvalidColor => "Invalid hex color: '",
        };
        let suffix = match self.kind {
            ErrorKind::UnexpectedArgument => "'\nA flag was expected",
            _ => "'",
        };
        let mut text = prefix.to_owned();
        text.append(self.token.as_str());
        text.append(suffix);
        text
    }
}

} // verus!
