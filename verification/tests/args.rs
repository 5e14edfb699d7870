use goool::args::{parse_cell_type, parse_color, parse_delay, same_text, starts_with_hyphen, Args, Parsed};
use goool::{print_full_help, ArgError, CellType, ErrorKind};

fn tokens(words: &[&str]) -> Vec<String> {
    words.iter().map(|w| w.to_string()).collect()
}

fn refusal(kind: ErrorKind, token: &str) -> ArgError {
    ArgError { kind, token: token.to_string() }
}

#[test]
fn defaults() {
    let args = Args::new();
    assert_eq!(args.alive_color, None);
    assert_eq!(args.dead_color, None);
    assert_eq!(args.delay, 100);
    assert_eq!(args.cell_type, CellType::Small);
}

#[test]
fn empty_command_line_keeps_defaults() {
    let mut args = Args::new();
    assert_eq!(args.parse(&tokens(&[])), Ok(Parsed::Ready));
    assert_eq!(args.delay, 100);
    assert_eq!(args.cell_type, CellType::Small);
}

#[test]
fn all_flags_short() {
    let mut args = Args::new();
    assert_eq!(args.parse(&tokens(&["-c", "big", "-d", "250", "-ac", "e7c27d", "-dc", "000"])), Ok(Parsed::Ready));
    assert_eq!(args.cell_type, CellType::Big);
    assert_eq!(args.delay, 250);
    assert_eq!(args.alive_color, Some((0xe7, 0xc2, 0x7d)));
    assert_eq!(args.dead_color, Some((0, 0, 0)));
}

#[test]
fn all_flags_long() {
    let mut args = Args::new();
    let line = tokens(&["--cell-type", "braille", "--delay", "5", "--alive-color", "8a8", "--dead-color", "#182020"]);
    assert_eq!(args.parse(&line), Ok(Parsed::Ready));
    assert_eq!(args.cell_type, CellType::Braille);
    assert_eq!(args.delay, 5);
    assert_eq!(args.alive_color, Some((0x80, 0xa0, 0x80)));
    assert_eq!(args.dead_color, Some((0x18, 0x20, 0x20)));
}

#[test]
fn later_flag_overrides_earlier() {
    let mut args = Args::new();
    assert_eq!(args.parse(&tokens(&["-d", "1", "-d", "2"])), Ok(Parsed::Ready));
    assert_eq!(args.delay, 2);
}

#[test]
fn help_stops_reading() {
    let mut args = Args::new();
    assert_eq!(args.parse(&tokens(&["-d", "5", "-h", "junk"])), Ok(Parsed::HelpWanted));
    assert_eq!(args.delay, 5);
    let mut long = Args::new();
    assert_eq!(long.parse(&tokens(&["--help"])), Ok(Parsed::HelpWanted));
}

#[test]
fn help_in_value_position_is_a_bad_value() {
    let mut args = Args::new();
    assert_eq!(args.parse(&tokens(&["-d", "-h"])), Err(refusal(ErrorKind::IncorrectValue, "-h")));
}

#[test]
fn token_that_is_no_flag() {
    let mut args = Args::new();
    assert_eq!(args.parse(&tokens(&["foo", "bar"])), Err(refusal(ErrorKind::UnexpectedArgument, "foo")));
    assert_eq!(args.parse(&tokens(&[""])), Err(refusal(ErrorKind::UnexpectedArgument, "")));
}

#[test]
fn flag_without_value() {
    let mut args = Args::new();
    assert_eq!(args.parse(&tokens(&["-c", "big", "-d"])), Err(refusal(ErrorKind::MissingValue, "-d")));
    assert_eq!(args.cell_type, CellType::Big);
}

#[test]
fn value_that_looks_like_flag_or_is_empty() {
    let mut args = Args::new();
    assert_eq!(args.parse(&tokens(&["-d", "-5"])), Err(refusal(ErrorKind::IncorrectValue, "-5")));
    assert_eq!(args.parse(&tokens(&["-d", ""])), Err(refusal(ErrorKind::IncorrectValue, "")));
    assert_eq!(args.delay, 100);
}

#[test]
fn unknown_flag() {
    let mut args = Args::new();
    assert_eq!(args.parse(&tokens(&["-x", "1"])), Err(refusal(ErrorKind::UnknownFlag, "-x")));
    assert_eq!(args.set_value_by_flag("--colour", "fff"), Err(refusal(ErrorKind::UnknownFlag, "--colour")));
}

#[test]
fn refused_values() {
    let mut args = Args::new();
    assert_eq!(args.parse(&tokens(&["-c", "huge"])), Err(refusal(ErrorKind::UnknownCellType, "huge")));
    assert_eq!(args.parse(&tokens(&["-d", "abc"])), Err(refusal(ErrorKind::InvalidNumber, "abc")));
    assert_eq!(args.parse(&tokens(&["-ac", "zzz"])), Err(refusal(ErrorKind::InvalidColor, "zzz")));
    assert_eq!(args.parse(&tokens(&["-dc", "ab"])), Err(refusal(ErrorKind::InvalidColor, "ab")));
    assert_eq!(args.delay, 100);
    assert_eq!(args.cell_type, CellType::Small);
    assert_eq!(args.alive_color, None);
    assert_eq!(args.dead_color, None);
}

#[test]
fn set_value_by_flag_sets_one_field() {
    let mut args = Args::new();
    assert_eq!(args.set_value_by_flag("-ac", "fff"), Ok(()));
    assert_eq!(args.alive_color, Some((240, 240, 240)));
    assert_eq!(args.dead_color, None);
    assert_eq!(args.set_value_by_flag("--dead-color", "102030"), Ok(()));
    assert_eq!(args.dead_color, Some((0x10, 0x20, 0x30)));
    assert_eq!(args.delay, 100);
}

#[test]
fn cell_types() {
    assert_eq!(parse_cell_type("big"), Ok(CellType::Big));
    assert_eq!(parse_cell_type("small"), Ok(CellType::Small));
    assert_eq!(parse_cell_type("braille"), Ok(CellType::Braille));
    assert_eq!(parse_cell_type("Big"), Err(refusal(ErrorKind::UnknownCellType, "Big")));
    assert_eq!(parse_cell_type(""), Err(refusal(ErrorKind::UnknownCellType, "")));
}

#[test]
fn delays() {
    assert_eq!(parse_delay("0"), Ok(0));
    assert_eq!(parse_delay("100"), Ok(100));
    assert_eq!(parse_delay("007"), Ok(7));
    assert_eq!(parse_delay("+7"), Ok(7));
    assert_eq!(parse_delay("18446744073709551615"), Ok(u64::MAX));
}

#[test]
fn refused_delays() {
    for text in ["", "+", "abc", "1.5", "12a", " 1", "1 ", "-1", "1_000", "18446744073709551616", "99999999999999999999999"] {
        assert_eq!(parse_delay(text), Err(refusal(ErrorKind::InvalidNumber, text)));
    }
}

#[test]
fn colors_go_through_the_codec() {
    assert_eq!(parse_color("#ffffff"), Ok((255, 255, 255)));
    assert_eq!(parse_color("ab"), Err(refusal(ErrorKind::InvalidColor, "ab")));
}

#[test]
fn text_helpers() {
    assert!(same_text("-h", "-h"));
    assert!(!same_text("-h", "-hh"));
    assert!(!same_text("ab", "ac"));
    assert!(same_text("", ""));
    assert!(starts_with_hyphen("-x"));
    assert!(!starts_with_hyphen("x-"));
    assert!(!starts_with_hyphen(""));
}

#[test]
fn messages_quote_the_token() {
    assert_eq!(refusal(ErrorKind::UnexpectedArgument, "foo").message(), "Unexpected argument: 'foo'\nA flag was expected");
    assert_eq!(refusal(ErrorKind::IncorrectValue, "-5").message(), "Incorrect argument value: '-5'");
    assert_eq!(refusal(ErrorKind::MissingValue, "-d").message(), "Missing value for argument: '-d'");
    assert_eq!(refusal(ErrorKind::UnknownFlag, "-x").message(), "Unknown flag: '-x'");
    assert_eq!(refusal(ErrorKind::UnknownCellType, "huge").message(), "Unknown cell type: 'huge'");
    assert_eq!(refusal(ErrorKind::InvalidNumber, "abc").message(), "Invalid number: 'abc'");
    assert_eq!(refusal(ErrorKind::InvalidColor, "zzz").message(), "Invalid hex color: 'zzz'");
}

#[test]
fn help_names_every_flag() {
    let help = print_full_help();
    assert!(help.starts_with("\x1b[1mCLI Game of Life screensaver\x1b[0m\n"));
    for flag in ["-c, --cell-type", "-d, --delay", "-ac, --alive-color", "-dc, --dead-color"] {
        assert!(help.contains(flag));
    }
    assert!(help.ends_with("(e.g. 182020, 000)\n"));
    assert_eq!(help.lines().count(), 13);
}
