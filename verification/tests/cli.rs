use txcodec::parse_cli_args;
use txcodec::parse_u64_decimal;
use txcodec::BitcoinError;
use txcodec::CliCommand;

fn strings(tokens: &[&str]) -> Vec<String> {
    tokens.iter().map(|t| t.to_string()).collect()
}

#[test]
fn decimal_parser_reads_plain_numbers() {
    assert_eq!(parse_u64_decimal("0"), Some(0));
    assert_eq!(parse_u64_decimal("12345"), Some(12345));
    assert_eq!(parse_u64_decimal("007"), Some(7));
    assert_eq!(parse_u64_decimal("18446744073709551615"), Some(u64::MAX));
}

#[test]
fn decimal_parser_accepts_leading_plus() {
    assert_eq!(parse_u64_decimal("+7"), Some(7));
    assert_eq!(parse_u64_decimal("+0"), Some(0));
}

#[test]
fn decimal_parser_rejects_bad_input() {
    assert_eq!(parse_u64_decimal(""), None);
    assert_eq!(parse_u64_decimal("+"), None);
    assert_eq!(parse_u64_decimal("12a"), None);
    assert_eq!(parse_u64_decimal("-1"), None);
    assert_eq!(parse_u64_decimal(" 5"), None);
    assert_eq!(parse_u64_decimal("18446744073709551616"), None);
    assert_eq!(parse_u64_decimal("99999999999999999999999"), None);
}

#[test]
fn send_command_is_recognized() {
    let args = strings(&["send", "2500", "addr1"]);
    match parse_cli_args(&args) {
        Ok(CliCommand::Send { amount, address }) => {
            assert_eq!(amount, 2500);
            assert_eq!(address, "addr1");
        },
        _ => panic!("expected a send command"),
    }
}

#[test]
fn balance_command_is_recognized() {
    let args = strings(&["balance"]);
    assert!(matches!(parse_cli_args(&args), Ok(CliCommand::Balance)));
}

#[test]
fn empty_args_fail_with_message() {
    let args: Vec<String> = vec![];
    match parse_cli_args(&args) {
        Err(BitcoinError::ParseError(m)) => assert_eq!(m, "No command provided"),
        _ => panic!("expected a parse error"),
    }
}

#[test]
fn send_with_missing_arguments_fails() {
    let args = strings(&["send", "2500"]);
    match parse_cli_args(&args) {
        Err(BitcoinError::ParseError(m)) => assert_eq!(m, "Missing arguments for send"),
        _ => panic!("expected a parse error"),
    }
}

#[test]
fn send_with_bad_amount_fails() {
    let args = strings(&["send", "12x", "addr1"]);
    assert!(matches!(parse_cli_args(&args), Err(BitcoinError::InvalidAmount)));
    let args2 = strings(&["send", "18446744073709551616", "addr1"]);
    assert!(matches!(parse_cli_args(&args2), Err(BitcoinError::InvalidAmount)));
}

#[test]
fn unknown_command_fails() {
    let args = strings(&["mine"]);
    match parse_cli_args(&args) {
        Err(BitcoinError::ParseError(m)) => assert_eq!(m, "Unknown command"),
        _ => panic!("expected a parse error"),
    }
}

#[test]
fn error_messages_name_each_condition() {
    assert_eq!(BitcoinError::InvalidTransaction.message(), "Invalid transaction format");
    assert_eq!(BitcoinError::InvalidScript.message(), "Invalid script format");
    assert_eq!(BitcoinError::InvalidAmount.message(), "Invalid amount");
    assert_eq!(
        BitcoinError::ParseError("No command provided".to_string()).message(),
        "Parse error: No command provided"
    );
}
