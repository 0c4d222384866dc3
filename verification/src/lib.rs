//! A small personal-finance library: bank statement and CSV export parsing,
//! a closed set of typed bank accounts, and the transaction records they
//! produce.  All money amounts are fixed-point values in cents, carried as
//! `i64`.

use vstd::prelude::*;

pub mod account;
pub mod categorization;
pub mod parser;
pub mod text;
pub mod transaction;
pub mod user;

use std::hash::DefaultHasher;
use std::hash::Hasher;
use vstd::std_specs::hash::DefaultHasherAdditionalSpecFns;
use vstd::string::StringSliceAdditionalSpecFns;

verus! {

/// A route path for an entity served over HTTP.
pub trait Routable {
    fn route() -> &'static str;
}

/// The 48-bit-masked digest of a textual identifier: a function of the
/// identifier's characters alone, so it is collision-stable across runs.
pub open spec fn spec_account_hash(id: Seq<char>) -> i64 {
    (DefaultHasher::spec_finish(seq![vstd::utf8::encode_utf8(id)])
        & 0x0000_FFFF_FFFF_FFFFu64) as i64
}

/// Stable account number for a raw textual account identifier: the standard
/// hasher's digest of the identifier's bytes, masked to 48 bits so the result
/// always sits in the non-negative part of the signed 64-bit domain.
pub fn calculate_hash(t: &str) -> (r: i64)
    ensures
        r == spec_account_hash(t@),
        0 <= r <= 0x0000_FFFF_FFFF_FFFFi64,
{
    let mut s = DefaultHasher::new();
    s.write(t.as_bytes());
    let h = s.finish();
    let masked = h & 0x0000_FFFF_FFFF_FFFF;
    proof {
        assert(h & 0x0000_FFFF_FFFF_FFFFu64 <= 0x0000_FFFF_FFFF_FFFFu64) by (bit_vector);
    }
    masked as i64
}

} // verus!
