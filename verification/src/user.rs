//! A registered user of the finance tool.

use vstd::prelude::*;

use rand::RngExt;

verus! {

/// A registered user: a display name and a six-digit numeric id.
#[derive(Debug, Clone)]
pub struct User {
    pub name: String,
    pub id: i64,
}

impl User {
    /// A user with the given name and a freshly drawn six-digit id.
    pub fn new(name: String) -> (r: User)
        ensures
            r.name == name,
            100_000 <= r.id < 999_999,
    {
        let id = User::random_id();
        User { name, id }
    }

    /// Relies on rand's `RngExt::random_range`: a value drawn from the
    /// given half-open range, here the six-digit ids.
    #[verifier::external_body]
    fn random_id() -> (r: i64)
        ensures
            100_000 <= r < 999_999,
    {
        let mut rng = rand::rng();
        rng.random_range(100_000i64..999_999i64)
    }
}

impl Default for User {
    /// The signed-out placeholder: empty name, id zero.
    fn default() -> (r: User)
        ensures
            r.name@ == Seq::<char>::empty(),
            r.id == 0,
    {
        User { name: String::new(), id: 0 }
    }
}

} // verus!
