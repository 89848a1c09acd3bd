use vstd::prelude::*;

verus! {

/// The command line: what to do, and whether to persist what is fetched.
pub struct PecuniaCli {
    pub cmd: Command,
    pub persist: bool,
}

pub enum Command {
    Get(Resource),
    GetBatch(MultiResource),
}

/// Resources fetched over a range of days for several symbols.
pub enum MultiResource {
    HistoricalPrices { date_from: String, date_to: String, symbols: Vec<String> },
}

/// Resources fetched for one symbol.
pub enum Resource {
    /// General company information.
    Company { symbol: String },
    /// Intraday prices of the current day.
    IntradayPrices { symbol: String },
    /// Intraday prices of a past day given as `YYYY-MM-DD`.
    HistoricalPrices { symbol: String, date: String },
}

} // verus!
