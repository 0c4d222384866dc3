use finance_tool::account::{Account, AccountType};
use finance_tool::calculate_hash;
use finance_tool::categorization::{assign_categories, categorization_batches};
use finance_tool::parser::parse_csv_to_transactions;
use finance_tool::text::{parse_cents, strip_money, trim_str};
use finance_tool::transaction::Transaction;
use finance_tool::user::User;

#[test]
fn test_account_type_parsing_is_case_insensitive() {
    assert_eq!(AccountType::parse("savings"), AccountType::Savings);
    assert_eq!(AccountType::parse("  SAVINGS  "), AccountType::Savings);
    assert_eq!(AccountType::parse("Credit"), AccountType::Credit);
    assert_eq!(AccountType::parse("chequing"), AccountType::Chequing);
    assert_eq!(AccountType::parse("Checking"), AccountType::Chequing);
    assert_eq!(AccountType::parse("visa"), AccountType::Unknown);
    assert_eq!(AccountType::parse(""), AccountType::Unknown);
    assert!(AccountType::from_text("treasury").is_err());
    assert!(AccountType::from_text("\tchecking\n").is_ok());
}

#[test]
fn test_account_type_text_round_trips() {
    for t in [
        AccountType::Savings,
        AccountType::Credit,
        AccountType::Chequing,
        AccountType::Unknown,
    ] {
        assert_eq!(AccountType::parse(t.to_text().as_str()), t);
    }
    assert_eq!(AccountType::Savings.to_text(), "Savings");
    assert_eq!(AccountType::Unknown.to_text(), "Unknown");
}

#[test]
fn test_calculate_hash_is_stable_and_masked() {
    let a = calculate_hash("4325");
    let b = calculate_hash("4325");
    assert_eq!(a, b);
    assert!(a >= 0);
    assert!(a <= 0x0000_FFFF_FFFF_FFFF);
}

#[test]
fn test_account_capabilities() {
    let mut account = Account::Chequing(finance_tool::account::ChequingAccount::new(7, 1001, 500));
    assert_eq!(account.user_id(), 7);
    assert_eq!(account.account_number(), 1001);
    assert_eq!(account.account_type(), AccountType::Chequing);
    assert_eq!(account.balance(), 500);
    assert_eq!(account.credit_limit(), 0);
    assert_eq!(account.interest_rate(), 0);

    account.deposit(250);
    assert_eq!(account.balance(), 750);
    account.withdraw(100);
    assert_eq!(account.balance(), 650);
    account.set_balance(99900);
    assert_eq!(account.balance(), 99900);
}

#[test]
fn test_credit_account_fields() {
    let mut account = Account::Credit(finance_tool::account::CreditAccount::new(7, 2002, 0, 50000));
    assert_eq!(account.credit_limit(), 50000);
    account.set_credit_limit(75000);
    assert_eq!(account.credit_limit(), 75000);
    account.deposit(1500);
    assert_eq!(account.balance(), 1500);

    let savings = Account::Savings(finance_tool::account::SavingsAccount::new(7, 3003, 100, 250));
    assert_eq!(savings.interest_rate(), 250);
    assert_eq!(savings.credit_limit(), 0);
}

#[test]
fn test_account_from_parts() {
    let savings = Account::from_parts("Savings", 1, 10, 100, 250, 0).unwrap();
    assert_eq!(savings.account_type(), AccountType::Savings);
    assert_eq!(savings.interest_rate(), 250);

    let credit = Account::from_parts("credit", 1, 11, 5000, 0, 90000).unwrap();
    assert_eq!(credit.account_type(), AccountType::Credit);
    assert_eq!(credit.balance(), 5000);
    assert_eq!(credit.credit_limit(), 90000);

    let chequing = Account::from_parts("checking", 1, 12, 42, 0, 0).unwrap();
    assert_eq!(chequing.account_type(), AccountType::Chequing);

    assert!(Account::from_parts("bonds", 1, 13, 0, 0, 0).is_err());
}

#[test]
fn test_from_rbc_csv_fields() {
    let line = "Chequing,12-34,Jan 01 2024,77, \"Store A\" ,\"B\",4.50,0.00".to_string();
    let txn = Transaction::from_rbc_csv(9, line);
    assert_eq!(txn.user_id, 9);
    assert_eq!(txn.account_type, AccountType::Chequing);
    assert_eq!(txn.account_number, calculate_hash("1234"));
    assert_eq!(txn.transaction_date, "Jan 01 2024");
    assert_eq!(txn.cheque_number, "77");
    assert_eq!(txn.description_1, "Store A");
    assert_eq!(txn.description_2, "B");
    assert_eq!(txn.cad, 450);
    assert_eq!(txn.usd, 0);
    assert_eq!(txn.category, "");
}

#[test]
fn test_from_rbc_csv_visa_alias_and_defaults() {
    let line = "Visa,999,Feb 02 2024,,coffee,,oops,1.25".to_string();
    let txn = Transaction::from_rbc_csv(9, line);
    assert_eq!(txn.account_type, AccountType::Credit);
    // a malformed amount is not fatal in the CSV path: it defaults to zero
    assert_eq!(txn.cad, 0);
    assert_eq!(txn.usd, 125);

    let spaced = " Visa ,999,Feb 02 2024,,coffee,,1.00,".to_string();
    let txn2 = Transaction::from_rbc_csv(9, spaced);
    // the visa alias is matched without trimming, so this is not credit
    assert_eq!(txn2.account_type, AccountType::Unknown);
}

#[test]
fn test_from_cibc_csv_fields() {
    let line = "55-66,Mar 03 2024,5,\"Groceries\",\"\",-12.34,0".to_string();
    let txn = Transaction::from_cibc_csv(4, AccountType::Savings, line);
    assert_eq!(txn.user_id, 4);
    assert_eq!(txn.account_type, AccountType::Savings);
    assert_eq!(txn.account_number, calculate_hash("5566"));
    assert_eq!(txn.transaction_date, "Mar 03 2024");
    assert_eq!(txn.cad, -1234);
}

#[test]
fn test_parse_csv_to_transactions_orders_records() {
    let l1 = "Chequing,1,Jan 01 2024,,a,,1.00,0".to_string();
    let l2 = "Savings,2,Jan 02 2024,,b,,2.00,0".to_string();
    let txns = parse_csv_to_transactions(3, &vec![l1, l2]);
    assert_eq!(txns.len(), 2);
    assert_eq!(txns[0].cad, 100);
    assert_eq!(txns[1].cad, 200);
    assert_eq!(txns[0].user_id, 3);
}

#[test]
fn test_extract_account_variants() {
    let mut txn = Transaction::dummy();
    txn.user_id = 5;
    txn.account_number = 500;

    txn.account_type = AccountType::Savings;
    let acc = txn.extract_account().unwrap();
    assert_eq!(acc.account_type(), AccountType::Savings);
    assert_eq!(acc.balance(), 0);
    assert_eq!(acc.user_id(), 5);

    txn.account_type = AccountType::Credit;
    assert_eq!(
        txn.extract_account().unwrap().account_type(),
        AccountType::Credit
    );

    txn.account_type = AccountType::Chequing;
    assert_eq!(
        txn.extract_account().unwrap().account_type(),
        AccountType::Chequing
    );

    txn.account_type = AccountType::Unknown;
    assert!(txn.extract_account().is_none());

    let (number, kind) = txn.extract_account_info();
    assert_eq!(number, 500);
    assert_eq!(kind, AccountType::Unknown);
}

#[test]
fn test_dummy_transaction_shape() {
    let txn = Transaction::dummy();
    assert_eq!(txn.user_id, 0);
    assert_eq!(txn.account_type, AccountType::Credit);
    assert_eq!(txn.account_number, i64::MAX);
    assert_eq!(txn.description_1, "TIM HORTONS #7525, NEPEAN");
    assert_eq!(txn.cad, 0);
}

#[test]
fn test_categorize_payload_shape() {
    let mut txn = Transaction::dummy();
    txn.description_2 = "OTTAWA".to_string();
    txn.cad = -700;
    let payload = txn.seriazlize_to_catergorize();
    assert_eq!(payload.name, "Credit: TIM HORTONS #7525, NEPEAN OTTAWA");
    assert_eq!(payload.merchant, "TIM HORTONS #7525, NEPEAN OTTAWA");
    assert_eq!(payload.amount, -700);
}

#[test]
fn test_categorize_payload_chequing_income_is_negated() {
    let mut txn = Transaction::dummy();
    txn.account_type = AccountType::Chequing;
    txn.description_1 = "Payroll".to_string();
    txn.cad = 1000;
    let payload = txn.seriazlize_to_catergorize();
    assert_eq!(payload.name, "Chequing: Payroll");
    assert_eq!(payload.merchant, "");
    assert_eq!(payload.amount, -1000);

    txn.cad = -1000;
    let expense = txn.seriazlize_to_catergorize();
    assert_eq!(expense.merchant, "Payroll");
    assert_eq!(expense.amount, -1000);
}

#[test]
fn test_categorization_batches_chunks_of_100() {
    let empty: Vec<Transaction> = Vec::new();
    assert_eq!(categorization_batches(&empty).len(), 0);

    let mut many: Vec<Transaction> = Vec::new();
    for i in 0..250 {
        let mut t = Transaction::dummy();
        t.cad = -i;
        many.push(t);
    }
    let batches = categorization_batches(&many);
    assert_eq!(batches.len(), 3);
    assert_eq!(batches[0].len(), 100);
    assert_eq!(batches[1].len(), 100);
    assert_eq!(batches[2].len(), 50);
    assert_eq!(batches[0][0].amount, 0);
    assert_eq!(batches[1][0].amount, -100);
    assert_eq!(batches[2][49].amount, -249);
}

#[test]
fn test_assign_categories_pairs_in_order() {
    let mut txns: Vec<Transaction> = Vec::new();
    for i in 0..3 {
        let mut t = Transaction::dummy();
        t.cad = i;
        txns.push(t);
    }
    let categories = vec![
        "Food".to_string(),
        "Travel".to_string(),
        "Rent".to_string(),
    ];
    let out = assign_categories(&txns, &categories);
    assert_eq!(out.len(), 3);
    assert_eq!(out[0].category, "Food");
    assert_eq!(out[1].category, "Travel");
    assert_eq!(out[2].category, "Rent");
    assert_eq!(out[2].cad, 2);
}

#[test]
fn test_user_new_draws_six_digit_id() {
    let user = User::new("Alex".to_string());
    assert_eq!(user.name, "Alex");
    assert!(user.id >= 100_000);
    assert!(user.id < 999_999);

    let blank = User::default();
    assert_eq!(blank.name, "");
    assert_eq!(blank.id, 0);
}

#[test]
fn test_parse_cents_grammar() {
    assert_eq!(parse_cents("4.50"), Some(450));
    assert_eq!(parse_cents("-123.45"), Some(-12345));
    assert_eq!(parse_cents("+2"), Some(200));
    assert_eq!(parse_cents("0.5"), Some(50));
    assert_eq!(parse_cents(".5"), Some(50));
    assert_eq!(parse_cents("5."), Some(500));
    assert_eq!(parse_cents("4.5000"), Some(450));
    assert_eq!(parse_cents("4.505"), None);
    assert_eq!(parse_cents("1,000"), None);
    assert_eq!(parse_cents("abc"), None);
    assert_eq!(parse_cents(""), None);
    assert_eq!(parse_cents("-"), None);
    assert_eq!(parse_cents("1.2.3"), None);
}

#[test]
fn test_strip_and_trim_helpers() {
    assert_eq!(strip_money("-$1,166.17"), "-1166.17");
    assert_eq!(parse_cents(strip_money("$1,000.25").as_str()), Some(100025));
    assert_eq!(trim_str("  padded  "), "padded");
    assert_eq!(trim_str("\t\n"), "");
}
