//! Account classification and the closed set of typed bank accounts.
//!
//! Money fields are fixed-point values in cents; interest rates are
//! fixed-point with two decimal places.

use vstd::prelude::*;

use crate::text::{lower_matches, spec_lower, spec_trim, trim_str};
use crate::Routable;
use vstd::string::StringExecFns;

verus! {

/// Product category of a bank account.  `Unknown` is a valid transient
/// value, produced for unparseable text, but is rejected wherever a concrete
/// variant is required.
#[derive(Debug, Clone, Copy, PartialEq, Eq, Structural)]
pub enum AccountType {
    Savings,
    Credit,
    Chequing,
    Unknown,
}

/// Signalled where account-type text must resolve to a concrete variant and
/// does not.
#[derive(Debug, Clone)]
pub struct InvalidAccountType;

/// The variant named by a piece of text: trimmed and lowered, it must read
/// `savings`, `credit`, `chequing` or its alias `checking`; any other text
/// means `Unknown`.
pub open spec fn spec_account_type_of(s: Seq<char>) -> AccountType {
    let t = spec_lower(spec_trim(s));
    if t == "savings"@ {
        AccountType::Savings
    } else if t == "credit"@ {
        AccountType::Credit
    } else if t == "chequing"@ || t == "checking"@ {
        AccountType::Chequing
    } else {
        AccountType::Unknown
    }
}

impl AccountType {
    /// Case-insensitive, whitespace-tolerant parse; text that names no
    /// concrete variant is an error.
    pub fn from_text(s: &str) -> (r: Result<AccountType, InvalidAccountType>)
        ensures
            r is Ok <==> spec_account_type_of(s@) != AccountType::Unknown,
            r is Ok ==> r->Ok_0 == spec_account_type_of(s@),
    {
        let c = trim_str(s);
        if lower_matches(c, "savings") {
            Ok(AccountType::Savings)
        } else if lower_matches(c, "credit") {
            Ok(AccountType::Credit)
        } else if lower_matches(c, "chequing") {
            Ok(AccountType::Chequing)
        } else if lower_matches(c, "checking") {
            Ok(AccountType::Chequing)
        } else {
            Err(InvalidAccountType)
        }
    }

    /// Total parse: text that names no concrete variant degrades to
    /// `Unknown` instead of failing.
    pub fn parse(s: &str) -> (r: AccountType)
        ensures
            r == spec_account_type_of(s@),
    {
        match AccountType::from_text(s) {
            Ok(t) => t,
            Err(_) => AccountType::Unknown,
        }
    }

    /// Canonical spelling of each variant.
    pub open spec fn spec_text(self) -> Seq<char> {
        match self {
            AccountType::Savings => "Savings"@,
            AccountType::Credit => "Credit"@,
            AccountType::Chequing => "Chequing"@,
            AccountType::Unknown => "Unknown"@,
        }
    }

    /// Canonical text of the variant.
    pub fn to_text(&self) -> (r: String)
        ensures
            r@ == self.spec_text(),
    {
        match self {
            AccountType::Savings => String::from_str("Savings"),
            AccountType::Credit => String::from_str("Credit"),
            AccountType::Chequing => String::from_str("Chequing"),
            AccountType::Unknown => String::from_str("Unknown"),
        }
    }
}

/// The canonical spelling of every variant parses back to that variant:
/// `spec_text` is a stable inverse of account-type parsing.
pub proof fn lemma_account_type_text_round_trip(t: AccountType)
    ensures
        spec_account_type_of(t.spec_text()) == t,
{
    reveal_strlit("Savings");
    reveal_strlit("savings");
    reveal_strlit("Credit");
    reveal_strlit("credit");
    reveal_strlit("Chequing");
    reveal_strlit("chequing");
    reveal_strlit("checking");
    reveal_strlit("Unknown");
    reveal_strlit("unknown");
    let s = t.spec_text();
    assert(spec_trim(s) == s) by {
        assert(!crate::text::is_ws_char(s[0]));
        assert(!crate::text::is_ws_char(s.last()));
    }
    match t {
        AccountType::Savings => {
            assert(spec_lower(s) =~= "savings"@);
        },
        AccountType::Credit => {
            assert(spec_lower(s) =~= "credit"@);
        },
        AccountType::Chequing => {
            assert(spec_lower(s) =~= "chequing"@);
            assert(spec_lower(s) != "savings"@);
            assert(spec_lower(s) != "credit"@);
        },
        AccountType::Unknown => {
            assert(spec_lower(s) =~= "unknown"@);
            assert("unknown"@[0] != "savings"@[0]);
            assert("unknown"@[0] != "credit"@[0]);
            assert("unknown"@[0] != "chequing"@[0]);
            assert("unknown"@[0] != "checking"@[0]);
        },
    }
}

/// A savings account: a balance that earns interest.
#[derive(Debug, Clone)]
pub struct SavingsAccount {
    pub user_id: i64,
    pub account_number: i64,
    /// balance in cents
    pub balance: i64,
    /// yearly rate, fixed-point with two decimal places
    pub interest_rate: i64,
}

impl SavingsAccount {
    pub fn new(user_id: i64, account_number: i64, balance: i64, interest_rate: i64) -> (r:
        SavingsAccount)
        ensures
            r == (SavingsAccount { user_id, account_number, balance, interest_rate }),
    {
        SavingsAccount { user_id, account_number, balance, interest_rate }
    }
}

/// A credit account: a balance owed against a credit limit.
#[derive(Debug, Clone)]
pub struct CreditAccount {
    pub user_id: i64,
    pub account_number: i64,
    /// balance owed in cents
    pub balance_owed: i64,
    /// credit limit in cents
    pub credit_limit: i64,
}

impl CreditAccount {
    pub fn new(user_id: i64, account_number: i64, balance_owed: i64, credit_limit: i64) -> (r:
        CreditAccount)
        ensures
            r == (CreditAccount { user_id, account_number, balance_owed, credit_limit }),
    {
        CreditAccount { user_id, account_number, balance_owed, credit_limit }
    }

    pub fn credit_limit(&self) -> (r: i64)
        ensures
            r == self.credit_limit,
    {
        self.credit_limit
    }
}

/// A chequing account: a plain balance.
#[derive(Debug, Clone)]
pub struct ChequingAccount {
    pub user_id: i64,
    pub account_number: i64,
    /// balance in cents
    pub balance: i64,
}

impl ChequingAccount {
    pub fn new(user_id: i64, account_number: i64, balance: i64) -> (r: ChequingAccount)
        ensures
            r == (ChequingAccount { user_id, account_number, balance }),
    {
        ChequingAccount { user_id, account_number, balance }
    }
}

/// A bank account over the closed set of concrete variants.  Dispatch is a
/// match over the tag; there is no open extension.
#[derive(Debug, Clone)]
pub enum Account {
    Savings(SavingsAccount),
    Credit(CreditAccount),
    Chequing(ChequingAccount),
}

impl Routable for Account {
    fn route() -> &'static str {
        "/accounts"
    }
}

impl Account {
    /// The single balance-like field of the variant: the balance, or for
    /// credit accounts the balance owed.  In cents.
    pub open spec fn spec_balance(self) -> i64 {
        match self {
            Account::Savings(a) => a.balance,
            Account::Credit(a) => a.balance_owed,
            Account::Chequing(a) => a.balance,
        }
    }

    pub open spec fn spec_user_id(self) -> i64 {
        match self {
            Account::Savings(a) => a.user_id,
            Account::Credit(a) => a.user_id,
            Account::Chequing(a) => a.user_id,
        }
    }

    pub open spec fn spec_account_number(self) -> i64 {
        match self {
            Account::Savings(a) => a.account_number,
            Account::Credit(a) => a.account_number,
            Account::Chequing(a) => a.account_number,
        }
    }

    pub open spec fn spec_account_type(self) -> AccountType {
        match self {
            Account::Savings(_) => AccountType::Savings,
            Account::Credit(_) => AccountType::Credit,
            Account::Chequing(_) => AccountType::Chequing,
        }
    }

    /// Credit accounts carry their own limit; every other variant reports
    /// zero.
    pub open spec fn spec_credit_limit(self) -> i64 {
        match self {
            Account::Credit(a) => a.credit_limit,
            _ => 0,
        }
    }

    /// Savings accounts carry their own rate; every other variant reports
    /// zero.
    pub open spec fn spec_interest_rate(self) -> i64 {
        match self {
            Account::Savings(a) => a.interest_rate,
            _ => 0,
        }
    }

    pub fn user_id(&self) -> (r: i64)
        ensures
            r == self.spec_user_id(),
    {
        match self {
            Account::Savings(a) => a.user_id,
            Account::Credit(a) => a.user_id,
            Account::Chequing(a) => a.user_id,
        }
    }

    pub fn account_number(&self) -> (r: i64)
        ensures
            r == self.spec_account_number(),
    {
        match self {
            Account::Savings(a) => a.account_number,
            Account::Credit(a) => a.account_number,
            Account::Chequing(a) => a.account_number,
        }
    }

    pub fn account_type(&self) -> (r: AccountType)
        ensures
            r == self.spec_account_type(),
    {
        match self {
            Account::Savings(_) => AccountType::Savings,
            Account::Credit(_) => AccountType::Credit,
            Account::Chequing(_) => AccountType::Chequing,
        }
    }

    pub fn balance(&self) -> (r: i64)
        ensures
            r == self.spec_balance(),
    {
        match self {
            Account::Savings(a) => a.balance,
            Account::Credit(a) => a.balance_owed,
            Account::Chequing(a) => a.balance,
        }
    }

    pub fn credit_limit(&self) -> (r: i64)
        ensures
            r == self.spec_credit_limit(),
    {
        match self {
            Account::Credit(a) => a.credit_limit,
            _ => 0,
        }
    }

    pub fn interest_rate(&self) -> (r: i64)
        ensures
            r == self.spec_interest_rate(),
    {
        match self {
            Account::Savings(a) => a.interest_rate,
            _ => 0,
        }
    }

    /// Adds the amount (in cents) to the balance-like field; everything
    /// else is kept.
    pub fn deposit(&mut self, amount: i64)
        requires
            i64::MIN <= old(self).spec_balance() + amount <= i64::MAX,
        ensures
            final(self).spec_balance() == old(self).spec_balance() + amount,
            final(self).spec_user_id() == old(self).spec_user_id(),
            final(self).spec_account_number() == old(self).spec_account_number(),
            final(self).spec_account_type() == old(self).spec_account_type(),
            final(self).spec_credit_limit() == old(self).spec_credit_limit(),
            final(self).spec_interest_rate() == old(self).spec_interest_rate(),
    {
        match self {
            Account::Savings(a) => a.balance = a.balance + amount,
            Account::Credit(a) => a.balance_owed = a.balance_owed + amount,
            Account::Chequing(a) => a.balance = a.balance + amount,
        }
    }

    /// Subtracts the amount (in cents) from the balance-like field;
    /// everything else is kept.
    pub fn withdraw(&mut self, amount: i64)
        requires
            i64::MIN <= old(self).spec_balance() - amount <= i64::MAX,
        ensures
            final(self).spec_balance() == old(self).spec_balance() - amount,
            final(self).spec_user_id() == old(self).spec_user_id(),
            final(self).spec_account_number() == old(self).spec_account_number(),
            final(self).spec_account_type() == old(self).spec_account_type(),
            final(self).spec_credit_limit() == old(self).spec_credit_limit(),
            final(self).spec_interest_rate() == old(self).spec_interest_rate(),
    {
        match self {
            Account::Savings(a) => a.balance = a.balance - amount,
            Account::Credit(a) => a.balance_owed = a.balance_owed - amount,
            Account::Chequing(a) => a.balance = a.balance - amount,
        }
    }

    /// Wholesale overwrite of the balance-like field, used during statement
    /// reconciliation; everything else is kept.
    pub fn set_balance(&mut self, balance: i64)
        ensures
            final(self).spec_balance() == balance,
            final(self).spec_user_id() == old(self).spec_user_id(),
            final(self).spec_account_number() == old(self).spec_account_number(),
            final(self).spec_account_type() == old(self).spec_account_type(),
            final(self).spec_credit_limit() == old(self).spec_credit_limit(),
            final(self).spec_interest_rate() == old(self).spec_interest_rate(),
    {
        match self {
            Account::Savings(a) => a.balance = balance,
            Account::Credit(a) => a.balance_owed = balance,
            Account::Chequing(a) => a.balance = balance,
        }
    }

    /// Wholesale overwrite of the credit limit.  Only credit accounts carry
    /// one: calling this on any other variant is a programming error, which
    /// the precondition rules out.
    pub fn set_credit_limit(&mut self, limit: i64)
        requires
            *old(self) is Credit,
        ensures
            final(self).spec_credit_limit() == limit,
            final(self).spec_balance() == old(self).spec_balance(),
            final(self).spec_user_id() == old(self).spec_user_id(),
            final(self).spec_account_number() == old(self).spec_account_number(),
            final(self).spec_account_type() == old(self).spec_account_type(),
            final(self).spec_interest_rate() == old(self).spec_interest_rate(),
    {
        match self {
            Account::Credit(a) => a.credit_limit = limit,
            _ => {},
        }
    }

    /// Discriminant-driven factory for a persisted row: the type text must
    /// resolve to a concrete variant, which is then built from the row's
    /// plain column values.
    pub fn from_parts(
        type_text: &str,
        user_id: i64,
        account_number: i64,
        balance: i64,
        interest_rate: i64,
        credit_limit: i64,
    ) -> (r: Result<Account, InvalidAccountType>)
        ensures
            match spec_account_type_of(type_text@) {
                AccountType::Savings => r == Ok::<Account, InvalidAccountType>(
                    Account::Savings(
                        SavingsAccount { user_id, account_number, balance, interest_rate },
                    ),
                ),
                AccountType::Credit => r == Ok::<Account, InvalidAccountType>(
                    Account::Credit(
                        CreditAccount {
                            user_id,
                            account_number,
                            balance_owed: balance,
                            credit_limit,
                        },
                    ),
                ),
                AccountType::Chequing => r == Ok::<Account, InvalidAccountType>(
                    Account::Chequing(ChequingAccount { user_id, account_number, balance }),
                ),
                AccountType::Unknown => r is Err,
            },
    {
        match AccountType::from_text(type_text) {
            Ok(AccountType::Savings) => Ok(
                Account::Savings(SavingsAccount::new(user_id, account_number, balance, interest_rate)),
            ),
            Ok(AccountType::Credit) => Ok(
                Account::Credit(CreditAccount::new(user_id, account_number, balance, credit_limit)),
            ),
            Ok(AccountType::Chequing) => Ok(
                Account::Chequing(ChequingAccount::new(user_id, account_number, balance)),
            ),
            _ => Err(InvalidAccountType),
        }
    }
}

} // verus!
