//! The compute side of transaction categorization: the request batches for
//! the external collaborator, and the pairing of its answers with the
//! records.  The HTTP exchange itself lives outside the library.

use vstd::prelude::*;

use crate::parser::txn_views;
use crate::transaction::{CategorizePayload, CategorizePayloadV, Transaction, TransactionV,
    spec_payload_of};

verus! {

/// The views of a vector of payloads.
pub open spec fn payload_views(ps: Seq<CategorizePayload>) -> Seq<CategorizePayloadV> {
    ps.map_values(|p: CategorizePayload| p@)
}

/// The payloads owed to the collaborator for a set of records, in order.
pub open spec fn spec_payloads(ts: Seq<TransactionV>) -> Seq<CategorizePayloadV> {
    ts.map_values(|t: TransactionV| spec_payload_of(t))
}

/// The request batches for a set of records: every record's payload in
/// input order, cut into chunks of at most 100 — the most the collaborator
/// takes per call.  The collaborator's answers, concatenated in chunk
/// order, then pair with the records one to one.
pub fn categorization_batches(txns: &Vec<Transaction>) -> (r: Vec<Vec<CategorizePayload>>)
    ensures
        r@.len() == (txns@.len() + 99) / 100,
        forall|b: int|
            0 <= b < r@.len() ==> payload_views((#[trigger] r@[b])@) == spec_payloads(
                txn_views(txns@),
            ).subrange(
                100 * b,
                if 100 * b + 100 <= txns@.len() {
                    100 * b + 100
                } else {
                    txns@.len() as int
                },
            ),
{
    let ghost all = spec_payloads(txn_views(txns@));
    let n = txns.len();
    let mut r: Vec<Vec<CategorizePayload>> = Vec::new();
    let mut base: usize = 0;
    while base < n
        invariant
            0 <= base <= n == txns@.len(),
            all == spec_payloads(txn_views(txns@)),
            all.len() == n,
            base == 100 * r@.len() || (base == n && r@.len() == (n + 99) / 100),
            base < n ==> base == 100 * r@.len(),
            forall|b: int|
                0 <= b < r@.len() ==> payload_views((#[trigger] r@[b])@) == all.subrange(
                    100 * b,
                    if 100 * b + 100 <= n {
                        100 * b + 100
                    } else {
                        n as int
                    },
                ),
        decreases n - base,
    {
        let end = if n - base < 100 {
            n
        } else {
            base + 100
        };
        let mut chunk: Vec<CategorizePayload> = Vec::new();
        let mut i = base;
        proof {
            assert(payload_views(chunk@) =~= all.subrange(base as int, base as int));
        }
        while i < end
            invariant
                base <= i <= end <= n == txns@.len(),
                all == spec_payloads(txn_views(txns@)),
                all.len() == n,
                payload_views(chunk@) == all.subrange(base as int, i as int),
            decreases end - i,
        {
            let p = txns[i].seriazlize_to_catergorize();
            proof {
                assert(all[i as int] == p@);
                assert(payload_views(chunk@.push(p)) =~= payload_views(chunk@).push(p@));
                assert(all.subrange(base as int, i as int).push(all[i as int]) =~= all.subrange(
                    base as int,
                    i + 1,
                ));
            }
            chunk.push(p);
            i += 1;
        }
        proof {
            let bidx = r@.len() as int;
            assert(payload_views(chunk@) == all.subrange(
                100 * bidx,
                if 100 * bidx + 100 <= n {
                    100 * bidx + 100
                } else {
                    n as int
                },
            ));
            if end == n {
                assert((n + 99) / 100 == bidx + 1) by (nonlinear_arith)
                    requires
                        100 * bidx < n <= 100 * bidx + 100,
                ;
            }
        }
        r.push(chunk);
        base = end;
    }
    proof {
        if n == 0 {
            assert(r@.len() == 0);
        }
    }
    r
}

/// The collaborator's answers paired with the records: each record gets the
/// category at its own position, and nothing else changes.  The answer list
/// must match the request list in length and order.
pub fn assign_categories(txns: &Vec<Transaction>, categories: &Vec<String>) -> (r: Vec<
    Transaction,
>)
    requires
        txns@.len() == categories@.len(),
    ensures
        r@.len() == txns@.len(),
        forall|x: int|
            0 <= x < txns@.len() ==> (#[trigger] r@[x])@ == (TransactionV {
                category: categories@[x]@,
                ..txns@[x]@
            }),
{
    let mut out: Vec<Transaction> = Vec::new();
    let mut i: usize = 0;
    while i < txns.len()
        invariant
            0 <= i <= txns@.len() == categories@.len(),
            out@.len() == i,
            forall|x: int|
                0 <= x < i ==> (#[trigger] out@[x])@ == (TransactionV {
                    category: categories@[x]@,
                    ..txns@[x]@
                }),
        decreases txns.len() - i,
    {
        let t = &txns[i];
        let with_category = Transaction {
            user_id: t.user_id,
            account_type: t.account_type,
            account_number: t.account_number,
            transaction_date: t.transaction_date.clone(),
            cheque_number: t.cheque_number.clone(),
            description_1: t.description_1.clone(),
            description_2: t.description_2.clone(),
            cad: t.cad,
            usd: t.usd,
            category: categories[i].clone(),
        };
        out.push(with_category);
        i += 1;
    }
    out
}

} // verus!
