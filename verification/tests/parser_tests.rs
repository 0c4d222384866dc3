use finance_tool::account::AccountType;
use finance_tool::calculate_hash;
use finance_tool::parser::{parse_extracted_transactions, ParseError};

fn lines(texts: &[&str]) -> Vec<String> {
    texts.iter().map(|t| t.to_string()).collect()
}

fn sample_lines() -> Vec<String> {
    lines(&[
        "Current Balance Available Balance Authorized Overdraft",
        "$467.17 $467.17 $0.00",
        "Date Range: Jan 1, 2020 - May 15, 2025",
        "Enter your question here Search",
        "May 12, 2025 Online Transfer to Deposit Account-7535 -$850.00 $316.17",
        "May 9, 2025 Online Transfer to Deposit Account-9191 -$26.64 $1,166.17",
        "May 8, 2025 e-Transfer - Autodeposit $25.00 $1,192.81",
        "Galine",
        "C1AuCKVds4GY",
        "May 7, 2025 Online Banking transfer - 8069 -$213.45 -$1,167.81",
        "May 7, 2025 Payroll Deposit $750.78",
        "CANADA",
    ])
}

#[test]
fn test_parse_sample_transactions() {
    let input = sample_lines();
    let result = parse_extracted_transactions(
        &input,
        calculate_hash(&"4325".to_string()),
        AccountType::Chequing,
    )
    .unwrap();
    let transactions = result.records;

    assert_eq!(transactions.len(), 5);

    assert_eq!(transactions[0].transaction_date, "May 12, 2025");
    assert!(transactions[0]
        .description_1
        .contains("Deposit Account-7535"));
    assert_eq!(transactions[0].cad, -85000);

    assert_eq!(transactions[2].transaction_date, "May 8, 2025");
    assert_eq!(transactions[2].cad, 2500);
    assert_eq!(transactions[2].description_2, "Galine");

    assert_eq!(transactions[3].transaction_date, "May 7, 2025");
    assert!(transactions[3].description_1.contains("8069"));
    assert_eq!(transactions[3].cad, -21345);

    assert_eq!(transactions[4].transaction_date, "May 7, 2025");
    assert_eq!(transactions[4].description_1.trim(), "Payroll Deposit");
    assert_eq!(transactions[4].description_2, "CANADA");
    assert_eq!(transactions[4].cad, 75078);
}

#[test]
fn test_parse_single_deposit_transaction() {
    let input = lines(&["Jan 01, 2024 Deposit Description $100.00"]);
    let result = parse_extracted_transactions(
        &input,
        calculate_hash(&"123456".to_string()),
        AccountType::Chequing,
    )
    .unwrap();

    assert_eq!(result.records.len(), 1);
    let txn = &result.records[0];
    assert_eq!(txn.transaction_date, "Jan 01, 2024");
    assert_eq!(txn.description_1.trim(), "Deposit Description");
    assert_eq!(txn.description_2, "");
    assert_eq!(txn.cad, 10000);
}

#[test]
fn test_parse_transaction_with_description_2() {
    let input = lines(&["Jan 02, 2024 ATM Withdrawal -$50.00", "Extra"]);
    let result = parse_extracted_transactions(
        &input,
        calculate_hash(&"123456".to_string()),
        AccountType::Savings,
    )
    .unwrap();

    assert_eq!(result.records.len(), 1);
    let txn = &result.records[0];
    assert_eq!(txn.description_2, "Extra");
}

#[test]
fn test_skips_link_lines() {
    let input = lines(&["http://example.com", "Jan 03, 2024 Online Payment -$30.00"]);
    let result = parse_extracted_transactions(
        &input,
        calculate_hash(&"123456".to_string()),
        AccountType::Chequing,
    )
    .unwrap();

    assert_eq!(result.records.len(), 1);
    assert_eq!(result.records[0].description_1.trim(), "Online Payment");
}

#[test]
fn test_skip_header_lines() {
    let input = lines(&[
        "header 1",
        "header 9",
        "header header extra 20, 2024",
        "Jan 03, 2024 Online Payment -$30.00",
    ]);
    let result = parse_extracted_transactions(
        &input,
        calculate_hash(&"123456".to_string()),
        AccountType::Chequing,
    )
    .unwrap();

    assert_eq!(result.records.len(), 1);
    assert_eq!(result.records[0].description_1.trim(), "Online Payment");
}

#[test]
fn test_multiple_transactions_parsing() {
    let input = lines(&[
        "Jan 04, 2024 Salary $1000.00",
        "Jan 05, 2024 Grocery Store -$123.45",
    ]);
    let result = parse_extracted_transactions(
        &input,
        calculate_hash(&"123456".to_string()),
        AccountType::Chequing,
    )
    .unwrap();

    assert_eq!(result.records.len(), 2);
    assert_eq!(result.records[0].description_1.trim(), "Salary");
    assert_eq!(result.records[0].cad, 100000);
    assert_eq!(result.records[1].description_1.trim(), "Grocery Store");
    assert_eq!(result.records[1].cad, -12345);
}

#[test]
fn test_single_record_chequing() {
    let input = lines(&["Jan 12, 2024 Coffee Shop $4.50"]);
    let result = parse_extracted_transactions(&input, 1, AccountType::Chequing).unwrap();
    assert_eq!(result.records.len(), 1);
    let txn = &result.records[0];
    assert_eq!(txn.transaction_date, "Jan 12, 2024");
    assert!(txn.description_1.contains("Coffee Shop"));
    assert_eq!(txn.cad, 450);
}

#[test]
fn test_single_record_credit_sign_inversion() {
    let input = lines(&["Jan 12, 2024 Coffee Shop $4.50"]);
    let result = parse_extracted_transactions(&input, 1, AccountType::Credit).unwrap();
    assert_eq!(result.records.len(), 1);
    assert_eq!(result.records[0].cad, -450);
}

#[test]
fn test_continuation_keeps_record_count() {
    let input = lines(&[
        "Jan 12, 2024 Coffee Shop $4.50",
        "wrapped description tail",
    ]);
    let result = parse_extracted_transactions(&input, 1, AccountType::Chequing).unwrap();
    assert_eq!(result.records.len(), 1);
    assert_eq!(result.records[0].description_2, "wrapped description tail");
}

#[test]
fn test_link_line_never_counts_or_extends() {
    let input = lines(&[
        "Jan 12, 2024 Coffee Shop $4.50",
        "see http://example.com for more statement pages",
        "short line",
    ]);
    let result = parse_extracted_transactions(&input, 1, AccountType::Chequing).unwrap();
    // the link line is skipped, starts no record, and the short line after
    // it does not merge into anything: the remembered previous line is the
    // link line, which is no record line
    assert_eq!(result.records.len(), 1);
    assert_eq!(result.records[0].description_2, "");
}

#[test]
fn test_summary_line_at_position_six() {
    let input = lines(&[
        "header one",
        "header two",
        "header three",
        "header four",
        "header five",
        "$467.17 $467.17 $0.00",
    ]);
    let result = parse_extracted_transactions(&input, 1, AccountType::Chequing).unwrap();
    assert_eq!(result.records.len(), 0);
    assert_eq!(result.balance, 46717);
    assert_eq!(result.credit_limit, 46717);
}

#[test]
fn test_parse_float_error_names_token() {
    let input = lines(&["Jan 12, 2024 Coffee Shop $abc $4.50"]);
    let result = parse_extracted_transactions(&input, 1, AccountType::Chequing);
    match result {
        Err(ParseError::ParseFloat(token)) => assert_eq!(token, "$abc"),
        other => panic!("expected a ParseFloat error, got {:?}", other.is_ok()),
    }
}

#[test]
fn test_parse_float_error_on_summary_line() {
    let input = lines(&[
        "header one",
        "header two",
        "header three",
        "header four",
        "header five",
        "$abc $def",
    ]);
    let result = parse_extracted_transactions(&input, 1, AccountType::Chequing);
    match result {
        Err(ParseError::ParseFloat(context)) => assert_eq!(context, "$abc $def"),
        other => panic!("expected a ParseFloat error, got {:?}", other.is_ok()),
    }
}

#[test]
fn test_invalid_format_on_record_without_currency_marker() {
    let input = lines(&["Jan 03, 2024 Pay -30.00"]);
    let result = parse_extracted_transactions(&input, 1, AccountType::Chequing);
    match result {
        Err(ParseError::InvalidFormat(line)) => assert_eq!(line, "Jan 03, 2024 Pay -30.00"),
        other => panic!("expected an InvalidFormat error, got {:?}", other.is_ok()),
    }
}

#[test]
fn test_invalid_format_on_short_summary_line() {
    let input = lines(&[
        "header one",
        "header two",
        "header three",
        "header four",
        "header five",
        "x",
    ]);
    let result = parse_extracted_transactions(&input, 1, AccountType::Chequing);
    match result {
        Err(ParseError::InvalidFormat(line)) => assert_eq!(line, "x"),
        other => panic!("expected an InvalidFormat error, got {:?}", other.is_ok()),
    }
}

#[test]
fn test_reparse_identical_input() {
    let input = sample_lines();
    let first = parse_extracted_transactions(&input, 7, AccountType::Chequing).unwrap();
    let second = parse_extracted_transactions(&input, 7, AccountType::Chequing).unwrap();
    assert_eq!(first.balance, second.balance);
    assert_eq!(first.credit_limit, second.credit_limit);
    assert_eq!(first.records.len(), second.records.len());
    for (a, b) in first.records.iter().zip(second.records.iter()) {
        assert_eq!(a.user_id, b.user_id);
        assert_eq!(a.account_number, b.account_number);
        assert_eq!(a.transaction_date, b.transaction_date);
        assert_eq!(a.cheque_number, b.cheque_number);
        assert_eq!(a.description_1, b.description_1);
        assert_eq!(a.description_2, b.description_2);
        assert_eq!(a.cad, b.cad);
        assert_eq!(a.usd, b.usd);
        assert_eq!(a.category, b.category);
    }
}

#[test]
fn test_amount_directly_after_date_is_not_a_record() {
    // the record pattern asks for a space after the year and another before
    // the amount, so a date followed immediately by the amount token is
    // header noise, not a record
    let input = lines(&["Jan 01, 2024 $100.00"]);
    let result = parse_extracted_transactions(&input, 1, AccountType::Chequing).unwrap();
    assert_eq!(result.records.len(), 0);
}

#[test]
fn test_empty_input_yields_no_records() {
    let input: Vec<String> = Vec::new();
    let result = parse_extracted_transactions(&input, 1, AccountType::Chequing).unwrap();
    assert_eq!(result.records.len(), 0);
    assert_eq!(result.balance, 0);
    assert_eq!(result.credit_limit, 0);
}

#[test]
fn test_trailing_amount_tokens_not_retained() {
    let input = lines(&["May 9, 2025 Online Transfer -$26.64 $1,166.17"]);
    let result = parse_extracted_transactions(&input, 1, AccountType::Chequing).unwrap();
    assert_eq!(result.records.len(), 1);
    let txn = &result.records[0];
    assert_eq!(txn.cad, -2664);
    assert!(!txn.description_1.contains("1,166.17"));
}
