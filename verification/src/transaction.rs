//! One financial movement, as produced by the CSV and statement parsers and
//! consumed by categorization and persistence.

use vstd::prelude::*;

use crate::account::{
    Account, AccountType, ChequingAccount, CreditAccount, SavingsAccount, spec_account_type_of,
};
use crate::calculate_hash;
use crate::spec_account_hash;
use crate::text::{
    parse_cents, spec_lower, spec_parse_cents, spec_split, spec_strip_char, spec_trim, split_char,
    strip_char, trim_str, lower_matches,
};
use vstd::string::StringExecFns;

verus! {

/// Mathematical image of a `Transaction`: every text field as its character
/// sequence, every amount in cents.
pub ghost struct TransactionV {
    pub user_id: int,
    pub account_type: AccountType,
    pub account_number: int,
    pub transaction_date: Seq<char>,
    pub cheque_number: Seq<char>,
    pub description_1: Seq<char>,
    pub description_2: Seq<char>,
    pub cad: int,
    pub usd: int,
    pub category: Seq<char>,
}

/// A flat record of one financial movement.  `cad` and `usd` are
/// fixed-point amounts in cents; negative means outflow.
#[derive(Debug, Clone)]
pub struct Transaction {
    pub user_id: i64,
    pub account_type: AccountType,
    pub account_number: i64,
    /// free text, `Mon DD, YYYY`
    pub transaction_date: String,
    pub cheque_number: String,
    pub description_1: String,
    pub description_2: String,
    /// amount in cents
    pub cad: i64,
    /// amount in cents
    pub usd: i64,
    pub category: String,
}

impl View for Transaction {
    type V = TransactionV;

    open spec fn view(&self) -> TransactionV {
        TransactionV {
            user_id: self.user_id as int,
            account_type: self.account_type,
            account_number: self.account_number as int,
            transaction_date: self.transaction_date@,
            cheque_number: self.cheque_number@,
            description_1: self.description_1@,
            description_2: self.description_2@,
            cad: self.cad as int,
            usd: self.usd as int,
            category: self.category@,
        }
    }
}

/// The cents value of a token, with unparseable text defaulting to zero, as
/// the CSV path treats malformed amounts.
pub open spec fn cents_or_zero(s: Seq<char>) -> int {
    match spec_parse_cents(s) {
        Some(v) => v,
        None => 0,
    }
}

/// The account type named by the first CSV field: the export writes `Visa`
/// for its credit line, and everything else is parsed as account-type text.
pub open spec fn spec_rbc_account_type(s: Seq<char>) -> AccountType {
    if spec_lower(s) == "visa"@ {
        AccountType::Credit
    } else {
        spec_account_type_of(s)
    }
}

/// Mathematical image of a `CategorizePayload`.
pub ghost struct CategorizePayloadV {
    pub name: Seq<char>,
    pub merchant: Seq<char>,
    pub amount: int,
}

/// The payload handed to the categorization collaborator for one record:
/// `amount` is the signed cents value with negative meaning expense.
#[derive(Debug, Clone)]
pub struct CategorizePayload {
    pub name: String,
    pub merchant: String,
    /// signed amount in cents; negative = expense, positive = income
    pub amount: i64,
}

impl View for CategorizePayload {
    type V = CategorizePayloadV;

    open spec fn view(&self) -> CategorizePayloadV {
        CategorizePayloadV {
            name: self.name@,
            merchant: self.merchant@,
            amount: self.amount as int,
        }
    }
}

/// The categorization payload of a record: `name` carries the account type
/// and both descriptions, `merchant` both descriptions, each trimmed.  A
/// positive chequing amount is not merchant income: it is negated and the
/// merchant cleared before submission.
pub open spec fn spec_payload_of(t: TransactionV) -> CategorizePayloadV {
    let name = spec_trim(
        t.account_type.spec_text() + ": "@ + t.description_1 + " "@ + t.description_2,
    );
    let base = spec_trim(t.description_1 + " "@ + t.description_2);
    if t.account_type == AccountType::Chequing && t.cad > 0 {
        CategorizePayloadV { name, merchant: Seq::empty(), amount: -t.cad }
    } else {
        CategorizePayloadV { name, merchant: base, amount: t.cad }
    }
}

impl Transaction {
    /// A fixed sample record, useful for exercising collaborators.
    pub fn dummy() -> (r: Transaction)
        ensures
            r@.user_id == 0,
            r@.account_type == AccountType::Credit,
            r@.account_number == i64::MAX,
            r@.transaction_date == Seq::<char>::empty(),
            r@.cheque_number == Seq::<char>::empty(),
            r@.description_1 == "TIM HORTONS #7525, NEPEAN"@,
            r@.description_2 == Seq::<char>::empty(),
            r@.cad == 0,
            r@.usd == 0,
            r@.category == Seq::<char>::empty(),
    {
        Transaction {
            user_id: 0,
            account_type: AccountType::Credit,
            account_number: i64::MAX,
            transaction_date: String::new(),
            cheque_number: String::new(),
            description_1: String::from_str("TIM HORTONS #7525, NEPEAN"),
            description_2: String::new(),
            cad: 0,
            usd: 0,
            category: String::new(),
        }
    }

    /// One record from a line of the bank's CSV export, fields in the order
    /// `account_type,raw_account_id,date,cheque_number,description_1,
    /// description_2,cad,usd`.  The caller guarantees the line holds all
    /// eight fields.
    pub fn from_rbc_csv(user_id: i64, line: String) -> (r: Transaction)
        requires
            spec_split(line@, ',').len() >= 8,
        ensures
            ({
                let ps = spec_split(line@, ',');
                &&& r@.user_id == user_id
                &&& r@.account_type == spec_rbc_account_type(ps[0])
                &&& r@.account_number == spec_account_hash(spec_strip_char(ps[1], '-'))
                &&& r@.transaction_date == ps[2]
                &&& r@.cheque_number == ps[3]
                &&& r@.description_1 == spec_strip_char(spec_trim(ps[4]), '"')
                &&& r@.description_2 == spec_strip_char(spec_trim(ps[5]), '"')
                &&& r@.cad == cents_or_zero(ps[6])
                &&& r@.usd == cents_or_zero(ps[7])
                &&& r@.category == Seq::<char>::empty()
            }),
    {
        let parts = split_char(line.as_str(), ',');
        let account_type = if lower_matches(parts[0].as_str(), "visa") {
            AccountType::Credit
        } else {
            AccountType::parse(parts[0].as_str())
        };
        let raw_id = strip_char(parts[1].as_str(), '-');
        Transaction {
            user_id,
            account_type,
            account_number: calculate_hash(raw_id.as_str()),
            transaction_date: parts[2].clone(),
            cheque_number: parts[3].clone(),
            description_1: strip_char(trim_str(parts[4].as_str()), '"'),
            description_2: strip_char(trim_str(parts[5].as_str()), '"'),
            cad: parse_cents(parts[6].as_str()).unwrap_or(0),
            usd: parse_cents(parts[7].as_str()).unwrap_or(0),
            category: String::new(),
        }
    }

    /// One record from a line of the other bank's CSV export, fields in the
    /// order `raw_account_id,date,cheque_number,description_1,
    /// description_2,cad,usd`; the account type is supplied by the caller.
    /// The caller guarantees the line holds all seven fields.
    pub fn from_cibc_csv(user_id: i64, account_type: AccountType, line: String) -> (r: Transaction)
        requires
            spec_split(line@, ',').len() >= 7,
        ensures
            ({
                let ps = spec_split(line@, ',');
                &&& r@.user_id == user_id
                &&& r@.account_type == account_type
                &&& r@.account_number == spec_account_hash(spec_strip_char(ps[0], '-'))
                &&& r@.transaction_date == ps[1]
                &&& r@.cheque_number == ps[2]
                &&& r@.description_1 == spec_strip_char(spec_trim(ps[3]), '"')
                &&& r@.description_2 == spec_strip_char(spec_trim(ps[4]), '"')
                &&& r@.cad == cents_or_zero(ps[5])
                &&& r@.usd == cents_or_zero(ps[6])
                &&& r@.category == Seq::<char>::empty()
            }),
    {
        let parts = split_char(line.as_str(), ',');
        let raw_id = strip_char(parts[0].as_str(), '-');
        Transaction {
            user_id,
            account_type,
            account_number: calculate_hash(raw_id.as_str()),
            transaction_date: parts[1].clone(),
            cheque_number: parts[2].clone(),
            description_1: strip_char(trim_str(parts[3].as_str()), '"'),
            description_2: strip_char(trim_str(parts[4].as_str()), '"'),
            cad: parse_cents(parts[5].as_str()).unwrap_or(0),
            usd: parse_cents(parts[6].as_str()).unwrap_or(0),
            category: String::new(),
        }
    }

    /// A fresh zero-balance account of this record's type and number; a
    /// record of unknown type yields none.
    pub fn extract_account(&self) -> (r: Option<Account>)
        ensures
            match self.account_type {
                AccountType::Savings => r == Some(
                    Account::Savings(
                        SavingsAccount {
                            user_id: self.user_id,
                            account_number: self.account_number,
                            balance: 0,
                            interest_rate: 0,
                        },
                    ),
                ),
                AccountType::Credit => r == Some(
                    Account::Credit(
                        CreditAccount {
                            user_id: self.user_id,
                            account_number: self.account_number,
                            balance_owed: 0,
                            credit_limit: 0,
                        },
                    ),
                ),
                AccountType::Chequing => r == Some(
                    Account::Chequing(
                        ChequingAccount {
                            user_id: self.user_id,
                            account_number: self.account_number,
                            balance: 0,
                        },
                    ),
                ),
                AccountType::Unknown => r is None,
            },
    {
        match self.account_type {
            AccountType::Savings => Some(
                Account::Savings(SavingsAccount::new(self.user_id, self.account_number, 0, 0)),
            ),
            AccountType::Credit => Some(
                Account::Credit(CreditAccount::new(self.user_id, self.account_number, 0, 0)),
            ),
            AccountType::Chequing => Some(
                Account::Chequing(ChequingAccount::new(self.user_id, self.account_number, 0)),
            ),
            AccountType::Unknown => None,
        }
    }

    /// The account linkage of this record.
    pub fn extract_account_info(&self) -> (r: (i64, AccountType))
        ensures
            r.0 == self.account_number,
            r.1 == self.account_type,
    {
        (self.account_number, self.account_type)
    }

    /// The categorization payload of this record, exactly as
    /// `spec_payload_of` lays it out.
    pub fn seriazlize_to_catergorize(&self) -> (r: CategorizePayload)
        ensures
            r@ == spec_payload_of(self@),
    {
        let mut name_text = self.account_type.to_text();
        name_text.append(": ");
        name_text.append(self.description_1.as_str());
        name_text.append(" ");
        name_text.append(self.description_2.as_str());
        let name = trim_str(name_text.as_str()).to_owned();

        let mut merchant_text = self.description_1.clone();
        merchant_text.append(" ");
        merchant_text.append(self.description_2.as_str());
        let mut merchant = trim_str(merchant_text.as_str()).to_owned();

        let mut amount = self.cad;
        if self.account_type == AccountType::Chequing && amount > 0 {
            amount = -amount;
            merchant = String::new();
        }
        CategorizePayload { name, merchant, amount }
    }
}

} // verus!
