use mcp_server_gdb::command::{
    expect_field, name_registers, require_done, watch_mode_from_str, ResultClass,
    WatchMode,
};
use mcp_server_gdb::error::{AppError, ParseIntErrorKind};
use mcp_server_gdb::parse::{
    parse_breakpoint_numbers, parse_register_list, parse_usize, BreakPointNumber,
};

#[test]
fn parse_usize_accepts_decimal_and_plus() {
    assert_eq!(parse_usize("42"), Ok(42));
    assert_eq!(parse_usize("+7"), Ok(7));
    assert_eq!(parse_usize("007"), Ok(7));
    assert_eq!(parse_usize("0"), Ok(0));
}

#[test]
fn parse_usize_errors() {
    assert_eq!(parse_usize(""), Err(ParseIntErrorKind::Empty));
    assert_eq!(parse_usize("+"), Err(ParseIntErrorKind::InvalidDigit));
    assert_eq!(parse_usize("-1"), Err(ParseIntErrorKind::InvalidDigit));
    assert_eq!(parse_usize("12a"), Err(ParseIntErrorKind::InvalidDigit));
    assert_eq!(parse_usize(" 1"), Err(ParseIntErrorKind::InvalidDigit));
    assert_eq!(parse_usize("99999999999999999999999"), Err(ParseIntErrorKind::PosOverflow));
}

#[test]
fn parse_usize_agrees_with_std() {
    for s in ["0", "1", "+1", "", "+", "-", "-0", "18446744073709551615", "18446744073709551616", "1x", "x1", "٣"] {
        let ours = parse_usize(s);
        let std_result = s.parse::<usize>();
        match (ours, std_result) {
            (Ok(a), Ok(b)) => assert_eq!(a, b, "{}", s),
            (Err(_), Err(_)) => {}
            _ => panic!("disagreement on {:?}", s),
        }
    }
}

#[test]
fn error_messages_match_std() {
    assert_eq!(ParseIntErrorKind::Empty.message(), "".parse::<usize>().unwrap_err().to_string());
    assert_eq!(ParseIntErrorKind::InvalidDigit.message(), "x".parse::<usize>().unwrap_err().to_string());
    assert_eq!(
        ParseIntErrorKind::PosOverflow.message(),
        "99999999999999999999999".parse::<usize>().unwrap_err().to_string()
    );
}

#[test]
fn breakpoint_number_forms() {
    assert_eq!(BreakPointNumber::parse("1"), Ok(BreakPointNumber { major: 1, minor: None }));
    assert_eq!(BreakPointNumber::parse("2.3"), Ok(BreakPointNumber { major: 2, minor: Some(3) }));
    assert_eq!(BreakPointNumber::parse("x"), Err(ParseIntErrorKind::InvalidDigit));
    assert_eq!(BreakPointNumber::parse("1."), Err(ParseIntErrorKind::Empty));
    assert_eq!(BreakPointNumber::parse(".1"), Err(ParseIntErrorKind::Empty));
    assert_eq!(BreakPointNumber::parse("1.2.3"), Err(ParseIntErrorKind::InvalidDigit));
}

#[test]
fn breakpoint_lists() {
    let ok = parse_breakpoint_numbers(&vec!["1".to_string(), "2.1".to_string()]).unwrap();
    assert_eq!(ok, vec![BreakPointNumber { major: 1, minor: None }, BreakPointNumber { major: 2, minor: Some(1) }]);
    let err = parse_breakpoint_numbers(&vec!["1".to_string(), "a".to_string(), "".to_string()]);
    match err {
        Err(AppError::ParseJsonError(m)) => assert_eq!(m, "invalid digit found in string"),
        _ => panic!("expected a parse error"),
    }
    assert_eq!(parse_breakpoint_numbers(&vec![]).unwrap(), vec![]);
}

#[test]
fn register_lists() {
    assert!(matches!(parse_register_list(&None), Ok(None)));
    let list = parse_register_list(&Some(vec!["0".to_string(), "16".to_string()])).unwrap();
    assert_eq!(list, Some(vec![0, 16]));
    let err = parse_register_list(&Some(vec!["3".to_string(), "r".to_string()]));
    assert!(matches!(err, Err(AppError::ParseIntError(ParseIntErrorKind::InvalidDigit))));
}

#[test]
fn watch_modes() {
    assert_eq!(watch_mode_from_str("read"), WatchMode::Read);
    assert_eq!(watch_mode_from_str("access"), WatchMode::Access);
    assert_eq!(watch_mode_from_str("write"), WatchMode::Write);
    assert_eq!(watch_mode_from_str("Read"), WatchMode::Write);
    assert_eq!(watch_mode_from_str(""), WatchMode::Write);
}

#[test]
fn done_is_required() {
    assert!(require_done(ResultClass::Done, "x".to_string()).is_ok());
    match require_done(ResultClass::Error, "msg=\"No symbol\"".to_string()) {
        Err(AppError::GDBError(m)) => assert_eq!(m, "msg=\"No symbol\""),
        _ => panic!("expected a GDB error"),
    }
    assert!(require_done(ResultClass::Running, String::new()).is_err());
}

#[test]
fn required_fields() {
    assert_eq!(expect_field(Some(3), "bkpt not found").unwrap(), 3);
    match expect_field::<u8>(None, "bkpt not found in the result") {
        Err(AppError::NotFound(m)) => assert_eq!(m, "bkpt not found in the result"),
        _ => panic!("expected NotFound"),
    }
}

#[test]
fn registers_are_named_by_number() {
    let names = vec!["rax".to_string(), "rbx".to_string()];
    let named = name_registers(&vec![1, 0, 7], &names);
    assert_eq!(named, vec![Some("rbx".to_string()), Some("rax".to_string()), None]);
}
