//! The statement text parser: a stateful, line-oriented engine converting
//! loosely structured multi-line statement text into an ordered sequence of
//! transactions plus reconciled summary fields, and the one-record-per-line
//! CSV path beside it.
//!
//! Each line is classified in order: a line holding a hyperlink marker is
//! skipped; a line matching the record pattern starts a new transaction; a
//! short line right after a record line continues the previous record's
//! secondary description; the sixth line, when nothing else claims it, is
//! the balance / credit-limit summary; anything else is noise.

use vstd::prelude::*;

use crate::account::AccountType;
use crate::text::{
    has_link, is_record_line, parse_cents, spec_has_link, spec_is_record_line, spec_parse_cents,
    spec_split, spec_strip_money, split_char, str_views, strip_money, contains_char,
};
use crate::transaction::{Transaction, TransactionV};
use vstd::string::StringExecFns;

verus! {

/// Why a parse failed.
#[derive(Debug)]
pub enum ParseError {
    /// A currency token failed numeric parse; carries the offending text.
    ParseFloat(String),
    /// A structurally invalid record; carries the offending line.
    InvalidFormat(String),
}

/// Mathematical image of a `ParseError`.
pub ghost enum ParseErrorV {
    ParseFloat(Seq<char>),
    InvalidFormat(Seq<char>),
}

impl View for ParseError {
    type V = ParseErrorV;

    open spec fn view(&self) -> ParseErrorV {
        match self {
            ParseError::ParseFloat(s) => ParseErrorV::ParseFloat(s@),
            ParseError::InvalidFormat(s) => ParseErrorV::InvalidFormat(s@),
        }
    }
}

/// The views of a vector of transactions.
pub open spec fn txn_views(ts: Seq<Transaction>) -> Seq<TransactionV> {
    ts.map_values(|t: Transaction| t@)
}

/// The whitespace tokens of a statement line.
pub open spec fn line_tokens(l: Seq<char>) -> Seq<Seq<char>> {
    spec_split(l, ' ')
}

/// The token at `i`, or empty text where the line has no such token.
pub open spec fn tok_or_empty(ts: Seq<Seq<char>>, i: int) -> Seq<char> {
    if 0 <= i < ts.len() {
        ts[i]
    } else {
        Seq::empty()
    }
}

/// The index of the first token at or past `from` that carries a currency
/// marker, if any.
pub open spec fn first_dollar_index(ts: Seq<Seq<char>>, from: int) -> Option<int>
    decreases ts.len() - from,
{
    if !(0 <= from < ts.len()) {
        None
    } else if ts[from].contains('$') {
        Some(from)
    } else {
        first_dollar_index(ts, from + 1)
    }
}

/// The date of a record line: its first three tokens joined by single
/// spaces, missing tokens read as empty.
pub open spec fn spec_date_of(ts: Seq<Seq<char>>) -> Seq<char> {
    tok_or_empty(ts, 0) + " "@ + tok_or_empty(ts, 1) + " "@ + tok_or_empty(ts, 2)
}

/// The description tokens `from .. to`, each with a trailing space.
pub open spec fn spec_desc_concat(ts: Seq<Seq<char>>, from: int, to: int) -> Seq<char>
    decreases to - from,
{
    if from >= to {
        Seq::empty()
    } else {
        spec_desc_concat(ts, from, to - 1) + ts[to - 1] + " "@
    }
}

/// Parsing one record line: the first three tokens are the date, tokens up
/// to the first currency-marked token are the description, and that token
/// is the amount — negated for credit accounts, where statement charges
/// count as outflow.  A record line without a currency-marked token is
/// structurally invalid; an amount that fails numeric parse names the
/// offending token.
pub open spec fn spec_parse_record(l: Seq<char>, account_number: int, ty: AccountType) -> Result<
    TransactionV,
    ParseErrorV,
> {
    let ts = line_tokens(l);
    match first_dollar_index(ts, 3) {
        None => Err(ParseErrorV::InvalidFormat(l)),
        Some(j) => match spec_parse_cents(spec_strip_money(ts[j])) {
            None => Err(ParseErrorV::ParseFloat(ts[j])),
            Some(v) => Ok(
                TransactionV {
                    user_id: 1,
                    account_type: ty,
                    account_number,
                    transaction_date: spec_date_of(ts),
                    cheque_number: Seq::empty(),
                    description_1: spec_desc_concat(ts, 3, j),
                    description_2: Seq::empty(),
                    cad: if ty == AccountType::Credit {
                        -v
                    } else {
                        v
                    },
                    usd: 0,
                    category: Seq::empty(),
                },
            ),
        },
    }
}

/// Parsing the summary line: its first two tokens are the reconciled
/// balance and credit limit.  Fewer than two tokens is structurally
/// invalid; a token that fails numeric parse names the whole line.
pub open spec fn spec_parse_summary(l: Seq<char>) -> Result<(int, int), ParseErrorV> {
    let ts = line_tokens(l);
    if ts.len() < 2 {
        Err(ParseErrorV::InvalidFormat(l))
    } else {
        match spec_parse_cents(spec_strip_money(ts[0])) {
            None => Err(ParseErrorV::ParseFloat(l)),
            Some(b) => match spec_parse_cents(spec_strip_money(ts[1])) {
                None => Err(ParseErrorV::ParseFloat(l)),
                Some(c) => Ok((b, c)),
            },
        }
    }
}

/// The parser's state between lines: the records so far, whether the
/// previous raw line matched the record pattern, and the summary slots (in
/// cents, zero until the summary line is seen).
pub ghost struct ParseState {
    pub txns: Seq<TransactionV>,
    pub prev_record: bool,
    pub balance: int,
    pub credit_limit: int,
}

pub open spec fn initial_state() -> ParseState {
    ParseState { txns: Seq::empty(), prev_record: false, balance: 0, credit_limit: 0 }
}

/// One step of the line classification, `idx` being the 1-based position
/// of the line.  Whatever branch is taken, the next state remembers whether
/// this raw line matched the record pattern.
pub open spec fn spec_step(
    st: ParseState,
    l: Seq<char>,
    idx: int,
    account_number: int,
    ty: AccountType,
) -> Result<ParseState, ParseErrorV> {
    let rec = spec_is_record_line(l);
    if spec_has_link(l) {
        Ok(ParseState { prev_record: rec, ..st })
    } else if rec {
        match spec_parse_record(l, account_number, ty) {
            Ok(t) => Ok(ParseState { txns: st.txns.push(t), prev_record: true, ..st }),
            Err(e) => Err(e),
        }
    } else if st.txns.len() > 0 && st.prev_record && line_tokens(l).len() < 5 {
        let last = st.txns.last();
        let merged = TransactionV { description_2: last.description_2 + l, ..last };
        Ok(
            ParseState {
                txns: st.txns.update(st.txns.len() - 1, merged),
                prev_record: false,
                ..st
            },
        )
    } else if idx == 6 {
        match spec_parse_summary(l) {
            Ok(bc) => Ok(
                ParseState { balance: bc.0, credit_limit: bc.1, prev_record: false, ..st },
            ),
            Err(e) => Err(e),
        }
    } else {
        Ok(ParseState { prev_record: false, ..st })
    }
}

/// A fatal error stops the whole parse: once any prefix of the input has
/// failed, every longer prefix fails the same way.
pub proof fn lemma_parse_statement_err_persists(
    lines: Seq<Seq<char>>,
    k: int,
    n: int,
    account_number: int,
    ty: AccountType,
)
    requires
        0 <= k <= n,
        spec_parse_statement(lines, k, account_number, ty) is Err,
    ensures
        spec_parse_statement(lines, n, account_number, ty) == spec_parse_statement(
            lines,
            k,
            account_number,
            ty,
        ),
    decreases n - k,
{
    if n > k {
        lemma_parse_statement_err_persists(lines, k, n - 1, account_number, ty);
    }
}

/// The state after the first `n` lines, or the first fatal error.
pub open spec fn spec_parse_statement(
    lines: Seq<Seq<char>>,
    n: int,
    account_number: int,
    ty: AccountType,
) -> Result<ParseState, ParseErrorV>
    decreases n,
{
    if n <= 0 {
        Ok(initial_state())
    } else {
        match spec_parse_statement(lines, n - 1, account_number, ty) {
            Ok(st) => spec_step(st, lines[n - 1], n, account_number, ty),
            Err(e) => Err(e),
        }
    }
}

/// Everything a statement parse yields: the records in input order and the
/// reconciled summary slots (in cents).
pub struct StatementResult {
    pub records: Vec<Transaction>,
    /// reconciled balance in cents
    pub balance: i64,
    /// reconciled credit limit in cents
    pub credit_limit: i64,
}

/// `first_dollar_index` found by scanning: every token before `j` lacks the
/// marker, and `j` is the end or carries it.
proof fn lemma_first_dollar_scan(ts: Seq<Seq<char>>, from: int, j: int)
    requires
        0 <= from <= j <= ts.len(),
        forall|x: int| from <= x < j ==> !(#[trigger] ts[x]).contains('$'),
        j == ts.len() || ts[j].contains('$'),
    ensures
        first_dollar_index(ts, from) == if j == ts.len() {
            None
        } else {
            Some(j)
        },
    decreases j - from,
{
    if from < j {
        lemma_first_dollar_scan(ts, from + 1, j);
    }
}

/// Parses one record line, exactly as `spec_parse_record` classifies it.
fn parse_record_line(line: &str, account_number: i64, ty: AccountType) -> (r: Result<
    Transaction,
    ParseError,
>)
    ensures
        match spec_parse_record(line@, account_number as int, ty) {
            Ok(tv) => r is Ok && r->Ok_0@ == tv,
            Err(e) => r is Err && r->Err_0@ == e,
        },
{
    let ts = split_char(line, ' ');
    let ghost tsv = line_tokens(line@);
    proof {
        assert(str_views(ts@) == tsv);
    }
    // the first three tokens are the date
    let mut date = String::new();
    if ts.len() > 0 {
        date.append(ts[0].as_str());
    }
    date.append(" ");
    if ts.len() > 1 {
        date.append(ts[1].as_str());
    }
    date.append(" ");
    if ts.len() > 2 {
        date.append(ts[2].as_str());
    }
    proof {
        assert(date@ =~= spec_date_of(tsv));
    }
    // description: tokens up to the first currency-marked token
    let mut description = String::new();
    let mut j: usize = 3;
    if ts.len() < 3 {
        j = ts.len();
        proof {
            assert(spec_desc_concat(tsv, 3, 3) == Seq::<char>::empty());
        }
    }
    proof {
        assert(description@ == spec_desc_concat(tsv, 3, 3));
    }
    while j < ts.len() && !contains_char(ts[j].as_str(), '$')
        invariant
            3 <= ts.len() ==> 3 <= j <= ts.len(),
            ts.len() < 3 ==> j == ts.len(),
            tsv == str_views(ts@),
            forall|x: int| 3 <= x < j ==> !(#[trigger] tsv[x]).contains('$'),
            description@ == spec_desc_concat(tsv, 3, if j < 3 { 3int } else { j as int }),
        decreases ts.len() - j,
    {
        description.append(ts[j].as_str());
        description.append(" ");
        proof {
            assert(description@ =~= spec_desc_concat(tsv, 3, j + 1));
        }
        j += 1;
    }
    proof {
        if tsv.len() >= 3 {
            lemma_first_dollar_scan(tsv, 3, j as int);
        }
    }
    if j >= ts.len() {
        proof {
            assert(first_dollar_index(tsv, 3) is None);
        }
        return Err(ParseError::InvalidFormat(line.to_owned()));
    }
    let amount_token = &ts[j];
    let stripped = strip_money(amount_token.as_str());
    match parse_cents(stripped.as_str()) {
        None => Err(ParseError::ParseFloat(amount_token.clone())),
        Some(v) => {
            let cad = if matches!(ty, AccountType::Credit) {
                -v
            } else {
                v
            };
            let t = Transaction {
                user_id: 1,
                account_type: ty,
                account_number,
                transaction_date: date,
                cheque_number: String::new(),
                description_1: description,
                description_2: String::new(),
                cad,
                usd: 0,
                category: String::new(),
            };
            Ok(t)
        },
    }
}

/// Parses the summary line, exactly as `spec_parse_summary` classifies it.
fn parse_summary_line(line: &str) -> (r: Result<(i64, i64), ParseError>)
    ensures
        match spec_parse_summary(line@) {
            Ok(bc) => r is Ok && r->Ok_0.0 == bc.0 && r->Ok_0.1 == bc.1,
            Err(e) => r is Err && r->Err_0@ == e,
        },
{
    let ts = split_char(line, ' ');
    if ts.len() < 2 {
        return Err(ParseError::InvalidFormat(line.to_owned()));
    }
    let b = match parse_cents(strip_money(ts[0].as_str()).as_str()) {
        Some(v) => v,
        None => {
            return Err(ParseError::ParseFloat(line.to_owned()));
        },
    };
    let c = match parse_cents(strip_money(ts[1].as_str()).as_str()) {
        Some(v) => v,
        None => {
            return Err(ParseError::ParseFloat(line.to_owned()));
        },
    };
    Ok((b, c))
}

/// Converts loosely structured statement text into transactions for the
/// given account, together with the reconciled balance and credit limit (in
/// cents) read from the summary line.  The whole input is consumed; the
/// only fatal conditions are a numeric-parse failure on an amount or
/// summary token and a structurally invalid record or summary line, and on
/// those no partial output is returned.
pub fn parse_extracted_transactions(
    lines: &Vec<String>,
    account_number: i64,
    account_type: AccountType,
) -> (r: Result<StatementResult, ParseError>)
    ensures
        match spec_parse_statement(
            str_views(lines@),
            lines@.len() as int,
            account_number as int,
            account_type,
        ) {
            Ok(st) => r is Ok && txn_views(r->Ok_0.records@) == st.txns && r->Ok_0.balance
                == st.balance && r->Ok_0.credit_limit == st.credit_limit,
            Err(e) => r is Err && r->Err_0@ == e,
        },
{
    let ghost lv = str_views(lines@);
    let ghost an: int = account_number as int;
    let mut records: Vec<Transaction> = Vec::new();
    let mut balance: i64 = 0;
    let mut credit_limit: i64 = 0;
    let mut prev_record = false;
    let mut i: usize = 0;
    proof {
        assert(txn_views(records@) =~= Seq::<TransactionV>::empty());
    }
    while i < lines.len()
        invariant
            0 <= i <= lines.len(),
            lv == str_views(lines@),
            an == account_number as int,
            ({
                let ps = spec_parse_statement(lv, i as int, an, account_type);
                &&& ps is Ok
                &&& ps->Ok_0.txns == txn_views(records@)
                &&& ps->Ok_0.prev_record == prev_record
                &&& ps->Ok_0.balance == balance as int
                &&& ps->Ok_0.credit_limit == credit_limit as int
            }),
        decreases lines.len() - i,
    {
        let ghost st = spec_parse_statement(lv, i as int, an, account_type)->Ok_0;
        let line = &lines[i];
        proof {
            assert(line@ == lv[i as int]);
        }
        let rec = is_record_line(line.as_str());
        if has_link(line.as_str()) {
            prev_record = rec;
        } else if rec {
            match parse_record_line(line.as_str(), account_number, account_type) {
                Ok(t) => {
                    proof {
                        assert(txn_views(records@.push(t)) =~= txn_views(records@).push(t@));
                    }
                    records.push(t);
                    prev_record = true;
                },
                Err(e) => {
                    proof {
                        lemma_parse_statement_err_persists(
                            lv,
                            i + 1,
                            lv.len() as int,
                            an,
                            account_type,
                        );
                    }
                    return Err(e);
                },
            }
        } else if records.len() > 0 && prev_record && split_char(line.as_str(), ' ').len() < 5 {
            let mut t = records.pop().unwrap();
            t.description_2.append(line.as_str());
            proof {
                let old_views = st.txns;
                let merged = t@;
                assert(txn_views(records@.push(t)) =~= txn_views(records@).push(merged));
                assert(txn_views(records@).push(merged) =~= old_views.update(
                    old_views.len() - 1,
                    merged,
                ));
            }
            records.push(t);
            prev_record = false;
        } else if i + 1 == 6 {
            match parse_summary_line(line.as_str()) {
                Ok(bc) => {
                    balance = bc.0;
                    credit_limit = bc.1;
                    prev_record = false;
                },
                Err(e) => {
                    proof {
                        lemma_parse_statement_err_persists(
                            lv,
                            i + 1,
                            lv.len() as int,
                            an,
                            account_type,
                        );
                    }
                    return Err(e);
                },
            }
        } else {
            prev_record = false;
        }
        i += 1;
    }
    Ok(StatementResult { records, balance, credit_limit })
}

// ---------------------------------------------------------------------------
// laws of the line classification
// ---------------------------------------------------------------------------
/// Sign inversion for credit accounts: a record line parsed for a credit
/// account yields exactly the record it yields for any other account type,
/// with the amount negated — statement charges count as outflow.  Failures
/// are identical.
pub proof fn lemma_credit_sign_inversion(l: Seq<char>, account_number: int, ty: AccountType)
    requires
        ty != AccountType::Credit,
    ensures
        match (
            spec_parse_record(l, account_number, AccountType::Credit),
            spec_parse_record(l, account_number, ty),
        ) {
            (Ok(c), Ok(t)) => c.cad == -t.cad && c == (TransactionV {
                account_type: AccountType::Credit,
                cad: c.cad,
                ..t
            }),
            (Err(e1), Err(e2)) => e1 == e2,
            _ => false,
        },
{
}

/// A line holding a link marker is never counted as a record and never
/// starts or extends one, regardless of its position: the step keeps every
/// record, both summary slots, and only re-arms the previous-line flag.
pub proof fn lemma_link_line_inert(
    st: ParseState,
    l: Seq<char>,
    idx: int,
    account_number: int,
    ty: AccountType,
)
    requires
        spec_has_link(l),
    ensures
        spec_step(st, l, idx, account_number, ty) == Ok::<ParseState, ParseErrorV>(
            ParseState { prev_record: spec_is_record_line(l), ..st },
        ),
{
}

/// A non-record line with fewer than five tokens and no link marker, coming
/// right after a record line, merges into the last record's secondary
/// description: the record count is unchanged, the merged record keeps
/// every other field, and all earlier records are untouched.
pub proof fn lemma_continuation_merges(
    st: ParseState,
    l: Seq<char>,
    idx: int,
    account_number: int,
    ty: AccountType,
)
    requires
        !spec_has_link(l),
        !spec_is_record_line(l),
        st.txns.len() > 0,
        st.prev_record,
        line_tokens(l).len() < 5,
    ensures
        ({
            let r = spec_step(st, l, idx, account_number, ty);
            &&& r is Ok
            &&& r->Ok_0.txns.len() == st.txns.len()
            &&& r->Ok_0.txns.last() == (TransactionV {
                description_2: st.txns.last().description_2 + l,
                ..st.txns.last()
            })
            &&& forall|x: int| 0 <= x < st.txns.len() - 1 ==> r->Ok_0.txns[x] == st.txns[x]
            &&& r->Ok_0.balance == st.balance
            &&& r->Ok_0.credit_limit == st.credit_limit
        }),
{
}

/// A line at position six that no other branch claims is the summary line:
/// its first two tokens become the reconciled balance and credit limit.
pub proof fn lemma_summary_line(st: ParseState, l: Seq<char>, account_number: int, ty: AccountType)
    requires
        !spec_has_link(l),
        !spec_is_record_line(l),
        !(st.txns.len() > 0 && st.prev_record && line_tokens(l).len() < 5),
        spec_parse_summary(l) is Ok,
    ensures
        spec_step(st, l, 6, account_number, ty) == Ok::<ParseState, ParseErrorV>(
            ParseState {
                balance: spec_parse_summary(l)->Ok_0.0,
                credit_limit: spec_parse_summary(l)->Ok_0.1,
                prev_record: false,
                ..st
            },
        ),
{
}

/// A currency token that fails numeric parse is fatal: the record line it
/// sits on yields a `ParseFloat` error naming that very token, and with
/// `lemma_parse_statement_err_persists` the whole parse aborts on it, so no
/// partial record list is ever a success output.
pub proof fn lemma_bad_amount_token_is_fatal(
    l: Seq<char>,
    k: int,
    account_number: int,
    ty: AccountType,
)
    requires
        first_dollar_index(line_tokens(l), 3) == Some(k),
        spec_parse_cents(spec_strip_money(line_tokens(l)[k])) is None,
    ensures
        spec_parse_record(l, account_number, ty) == Err::<TransactionV, ParseErrorV>(
            ParseErrorV::ParseFloat(line_tokens(l)[k]),
        ),
{
}

/// Parsing is a pure function of its input: identical line sequences give
/// identical outcomes, with no hidden cross-call state.
pub proof fn lemma_reparse_identical(
    l1: Seq<Seq<char>>,
    l2: Seq<Seq<char>>,
    n: int,
    account_number: int,
    ty: AccountType,
)
    requires
        l1 == l2,
    ensures
        spec_parse_statement(l1, n, account_number, ty) == spec_parse_statement(
            l2,
            n,
            account_number,
            ty,
        ),
{
}

/// Round trip for valid record lines: the parsed record carries the line's
/// own date tokens (joined by single spaces), its description tokens (each
/// with a trailing space — the one normalization), and the value of its
/// first currency-marked token; and joining the line's tokens gives back
/// the line itself, so nothing else is lost.
pub proof fn lemma_record_round_trip(
    l: Seq<char>,
    k: int,
    v: int,
    account_number: int,
    ty: AccountType,
)
    requires
        spec_is_record_line(l),
        3 <= k < line_tokens(l).len(),
        forall|x: int| 3 <= x < k ==> !(#[trigger] line_tokens(l)[x]).contains('$'),
        line_tokens(l)[k].contains('$'),
        spec_parse_cents(spec_strip_money(line_tokens(l)[k])) == Some(v),
    ensures
        spec_parse_record(l, account_number, ty) == Ok::<TransactionV, ParseErrorV>(
            TransactionV {
                user_id: 1,
                account_type: ty,
                account_number,
                transaction_date: line_tokens(l)[0] + " "@ + line_tokens(l)[1] + " "@
                    + line_tokens(l)[2],
                cheque_number: Seq::empty(),
                description_1: spec_desc_concat(line_tokens(l), 3, k),
                description_2: Seq::empty(),
                cad: if ty == AccountType::Credit {
                    -v
                } else {
                    v
                },
                usd: 0,
                category: Seq::empty(),
            },
        ),
        crate::text::spec_join(line_tokens(l), ' ') == l,
{
    let ts = line_tokens(l);
    lemma_first_dollar_scan(ts, 3, k);
    crate::text::lemma_split_join_identity(l, ' ');
    assert(spec_date_of(ts) == ts[0] + " "@ + ts[1] + " "@ + ts[2]);
}

/// Lines of a one-record-per-line CSV export, after its header, as
/// transactions.  The caller guarantees every line holds all eight fields.
pub fn parse_csv_to_transactions(user_id: i64, lines: &Vec<String>) -> (r: Vec<Transaction>)
    requires
        forall|x: int| 0 <= x < lines@.len() ==> spec_split((#[trigger] lines@[x])@, ',').len() >= 8,
    ensures
        r@.len() == lines@.len(),
        forall|x: int|
            0 <= x < lines@.len() ==> ({
                let ps = spec_split(lines@[x]@, ',');
                let t = (#[trigger] r@[x])@;
                &&& t.user_id == user_id
                &&& t.account_type == crate::transaction::spec_rbc_account_type(ps[0])
                &&& t.account_number == crate::spec_account_hash(
                    crate::text::spec_strip_char(ps[1], '-'),
                )
                &&& t.transaction_date == ps[2]
                &&& t.cheque_number == ps[3]
                &&& t.description_1 == crate::text::spec_strip_char(
                    crate::text::spec_trim(ps[4]),
                    '"',
                )
                &&& t.description_2 == crate::text::spec_strip_char(
                    crate::text::spec_trim(ps[5]),
                    '"',
                )
                &&& t.cad == crate::transaction::cents_or_zero(ps[6])
                &&& t.usd == crate::transaction::cents_or_zero(ps[7])
                &&& t.category == Seq::<char>::empty()
            }),
{
    let mut out: Vec<Transaction> = Vec::new();
    let mut i: usize = 0;
    while i < lines.len()
        invariant
            0 <= i <= lines.len(),
            out@.len() == i,
            forall|x: int|
                0 <= x < lines@.len() ==> spec_split((#[trigger] lines@[x])@, ',').len() >= 8,
            forall|x: int|
                0 <= x < i ==> ({
                    let ps = spec_split(lines@[x]@, ',');
                    let t = (#[trigger] out@[x])@;
                    &&& t.user_id == user_id
                    &&& t.account_type == crate::transaction::spec_rbc_account_type(ps[0])
                    &&& t.account_number == crate::spec_account_hash(
                        crate::text::spec_strip_char(ps[1], '-'),
                    )
                    &&& t.transaction_date == ps[2]
                    &&& t.cheque_number == ps[3]
                    &&& t.description_1 == crate::text::spec_strip_char(
                        crate::text::spec_trim(ps[4]),
                        '"',
                    )
                    &&& t.description_2 == crate::text::spec_strip_char(
                        crate::text::spec_trim(ps[5]),
                        '"',
                    )
                    &&& t.cad == crate::transaction::cents_or_zero(ps[6])
                    &&& t.usd == crate::transaction::cents_or_zero(ps[7])
                    &&& t.category == Seq::<char>::empty()
                }),
        decreases lines.len() - i,
    {
        let t = Transaction::from_rbc_csv(user_id, lines[i].clone());
        out.push(t);
        i += 1;
    }
    out
}

} // verus!
