//! The namespace and database that a query session currently uses.
use vstd::prelude::*;

verus! {

pub struct SqlContext {
    pub ns: Option<String>,
    pub db: Option<String>,
}

impl SqlContext {
    /// Applies a `USE` statement: each of `ns` and `db` that it names replaces
    /// the current one; one that it leaves out stays as it was.
    pub fn using(&mut self, ns: Option<String>, db: Option<String>)
        ensures
            final(self).ns == (if ns is Some {
                ns
            } else {
                old(self).ns
            }),
            final(self).db == (if db is Some {
                db
            } else {
                old(self).db
            }),
    {
        match ns {
            Some(n) => self.ns = Some(n),
            None => {},
        }
        match db {
            Some(d) => self.db = Some(d),
            None => {},
        }
    }
}

} // verus!
