use vstd::prelude::*;

verus! {

/// Where the price history is stored.
pub struct Database {
    pub url: String,
}

/// The settings of the client: the token of the remote service and the store.
pub struct Configuration {
    pub iex_api_token: String,
    pub database: Database,
}

} // verus!
