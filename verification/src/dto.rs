//! Plain request and response shapes that callers of the core exchange with
//! it: date-keyed queries, the price-sync summary, and the authenticated
//! caller's claims.

use vstd::prelude::*;

verus! {

/// A query for one calendar date, `YYYY-MM-DD`; absent means today.
#[derive(Clone, Debug)]
pub struct DateQuery {
    pub date: Option<String>,
}

/// A query for the cheapest hours of a date; an absent count defaults.
#[derive(Clone, Debug)]
pub struct CheapestHoursQuery {
    pub date: Option<String>,
    pub count: Option<usize>,
}

/// The outcome of one price synchronisation.
#[derive(Clone, Debug)]
pub struct SyncResponse {
    pub success: bool,
    pub prices_synced: usize,
    pub message: String,
}

/// The claims of an authenticated caller: its subject (the user id) and the
/// expiry instant of its token.
#[derive(Clone, Debug)]
pub struct Claims {
    pub sub: String,
    pub exp: usize,
}

} // verus!
