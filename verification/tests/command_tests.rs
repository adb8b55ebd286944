use kpt_lib::command::Command;
use std::str::FromStr;

#[test]
fn menu_digits_select_their_commands() {
    assert_eq!(Command::from_input("1"), Command::ExportDxf);
    assert_eq!(Command::from_input("2"), Command::ExportPly);
    assert_eq!(Command::from_input("3"), Command::Exit);
}

#[test]
fn other_input_is_unknown() {
    assert_eq!(Command::from_input(""), Command::Unknown);
    assert_eq!(Command::from_input("4"), Command::Unknown);
    assert_eq!(Command::from_input("0"), Command::Unknown);
    assert_eq!(Command::from_input("12"), Command::Unknown);
    assert_eq!(Command::from_input(" 1"), Command::Unknown);
    assert_eq!(Command::from_input("a"), Command::Unknown);
    assert_eq!(Command::from_input("é"), Command::Unknown);
    assert_eq!(Command::from_input("١"), Command::Unknown);
}

#[test]
fn from_str_never_fails() {
    assert_eq!(Command::from_str("1").unwrap(), Command::ExportDxf);
    assert_eq!("2".parse::<Command>().unwrap(), Command::ExportPly);
    assert_eq!("3".parse::<Command>().unwrap(), Command::Exit);
    assert_eq!("exit".parse::<Command>().unwrap(), Command::Unknown);
    assert!("".parse::<Command>().is_ok());
}
