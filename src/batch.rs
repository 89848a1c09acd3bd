use vstd::prelude::*;
use vstd::arithmetic::div_mod::lemma_fundamental_div_mod_converse;
use crate::calendar::{
    compact_text, date_after, day_ordinal, days_inclusive, iso_date_of, lemma_order_by_ordinal,
    parse_iso_date, CalendarDate,
};
use crate::model::{all_normalizable, price_rows, IntradayPrice, PriceRow};

verus! {

/// Why a retrieval stopped.
#[derive(Debug)]
pub enum BatchError {
    /// The date range is empty or inverted (`from >= to`).
    Validation,
    /// A date, or an observation's date or minute, is not in its textual format.
    Parse,
    /// The remote service could not be reached or answered with an error.
    RemoteFetch(String),
    /// The store refused a write.
    Storage(String),
}

/// One call to the remote service: the prices of `symbol` on `date` (`YYYYMMDD`).
pub struct FetchRequest {
    pub symbol: String,
    pub date: String,
}

/// `req` asks for `symbol` on the day `day`.
pub open spec fn requests_day(req: FetchRequest, symbol: Seq<char>, day: CalendarDate) -> bool {
    req.symbol@ == symbol && req.date@ == compact_text(day)
}

/// `plan` holds, day by day from `from` through `to` and within a day in the
/// given order of `symbols`, one request per symbol.
pub open spec fn is_batch_plan(
    symbols: Seq<String>,
    from: CalendarDate,
    to: CalendarDate,
    plan: Seq<FetchRequest>,
) -> bool {
    &&& plan.len() == days_inclusive(from, to) * symbols.len()
    &&& forall|k: int|
        0 <= k < plan.len() ==> requests_day(
            #[trigger] plan[k],
            symbols[k % symbols.len() as int]@,
            date_after(from, (k / symbols.len() as int) as nat),
        )
}

/// The outcome that a batch over `date_from`..=`date_to` owes: `Parse` for a
/// malformed date, `Validation` unless `from < to`, else success.
pub open spec fn batch_check(date_from: Seq<char>, date_to: Seq<char>) -> Option<BatchError> {
    match (iso_date_of(date_from), iso_date_of(date_to)) {
        (Some(from), Some(to)) => if day_ordinal(from) < day_ordinal(to) {
            None
        } else {
            Some(BatchError::Validation)
        },
        _ => Some(BatchError::Parse),
    }
}

/// The requests of a batch: for each calendar day from `date_from` through
/// `date_to` (both `YYYY-MM-DD`), one per symbol in the given order.
pub fn plan_batch(symbols: &Vec<String>, date_from: &str, date_to: &str) -> (r: Result<
    Vec<FetchRequest>,
    BatchError,
>)
    ensures
        r is Ok <==> batch_check(date_from@, date_to@) is None,
        r matches Err(e) ==> batch_check(date_from@, date_to@) == Some(e),
        r matches Ok(plan) ==> is_batch_plan(
            symbols@,
            iso_date_of(date_from@).unwrap(),
            iso_date_of(date_to@).unwrap(),
            plan@,
        ),
{
    let from = match parse_iso_date(date_from) {
        Some(d) => d,
        None => return Err(BatchError::Parse),
    };
    let to = match parse_iso_date(date_to) {
        Some(d) => d,
        None => return Err(BatchError::Parse),
    };
    proof {
        lemma_order_by_ordinal(to, from);
    }
    if to.le(&from) {
        return Err(BatchError::Validation);
    }
    let n = symbols.len();
    let mut plan: Vec<FetchRequest> = Vec::new();
    let mut cur = from;
    let ghost mut day: nat = 0;
    while cur.le(&to)
        invariant
            from.wf(),
            to.wf(),
            to.year <= 9999,
            n == symbols@.len(),
            cur.wf(),
            cur == date_after(from, day),
            day_ordinal(cur) == day_ordinal(from) + day,
            day_ordinal(cur) <= day_ordinal(to) + 1,
            plan@.len() == day * n,
            forall|k: int|
                0 <= k < plan@.len() ==> requests_day(
                    #[trigger] plan@[k],
                    symbols@[k % n as int]@,
                    date_after(from, (k / n as int) as nat),
                ),
        decreases day_ordinal(to) + 1 - day_ordinal(cur),
    {
        proof {
            lemma_order_by_ordinal(cur, to);
        }
        let text = cur.compact();
        let mut j: usize = 0;
        while j < n
            invariant
                n == symbols@.len(),
                j <= n,
                text@ == compact_text(cur),
                cur == date_after(from, day),
                plan@.len() == day * n + j,
                forall|k: int|
                    0 <= k < plan@.len() ==> requests_day(
                        #[trigger] plan@[k],
                        symbols@[k % n as int]@,
                        date_after(from, (k / n as int) as nat),
                    ),
            decreases n - j,
        {
            proof {
                lemma_fundamental_div_mod_converse(day * n + j, n as int, day as int, j as int);
            }
            plan.push(FetchRequest { symbol: symbols[j].clone(), date: text.clone() });
            j = j + 1;
        }
        cur = cur.succ();
        proof {
            day = day + 1;
            assert(plan@.len() == day * n) by (nonlinear_arith)
                requires
                    plan@.len() == (day - 1) * n + n,
            ;
        }
    }
    proof {
        lemma_order_by_ordinal(cur, to);
    }
    Ok(plan)
}


/// The request of a single retrieval: `symbol` on `date` (`YYYY-MM-DD`);
/// `None` for a malformed date.
pub fn historical_request(symbol: &String, date: &str) -> (r: Option<FetchRequest>)
    ensures
        r is Some <==> iso_date_of(date@) is Some,
        r matches Some(q) ==> requests_day(q, symbol@, iso_date_of(date@).unwrap()),
{
    match parse_iso_date(date) {
        Some(d) => Some(FetchRequest { symbol: symbol.clone(), date: d.compact() }),
        None => None,
    }
}

/// With one symbol, the batch holds one request per day of the range, and the
/// request of each day is the one that a single retrieval of that symbol on
/// that day makes.
pub proof fn lemma_one_symbol_batch_is_single_days(
    symbols: Seq<String>,
    date_from: Seq<char>,
    date_to: Seq<char>,
    plan: Seq<FetchRequest>,
)
    requires
        symbols.len() == 1,
        batch_check(date_from, date_to) is None,
        is_batch_plan(symbols, iso_date_of(date_from).unwrap(), iso_date_of(date_to).unwrap(), plan),
    ensures
        plan.len() == days_inclusive(iso_date_of(date_from).unwrap(), iso_date_of(date_to).unwrap()),
        plan.len() >= 2,
        requests_day(plan[0], symbols[0]@, iso_date_of(date_from).unwrap()),
        forall|k: int|
            0 <= k < plan.len() ==> requests_day(
                #[trigger] plan[k],
                symbols[0]@,
                date_after(iso_date_of(date_from).unwrap(), k as nat),
            ),
{
    assert forall|k: int| 0 <= k < plan.len() implies requests_day(
        #[trigger] plan[k],
        symbols[0]@,
        date_after(iso_date_of(date_from).unwrap(), k as nat),
    ) by {
        assert(k % 1 == 0 && k / 1 == k);
    }
}

/// The state of a batch retrieval between calls to the outside world. The
/// caller asks for the next request, makes it, reports what came back, stores
/// the rows that it is handed, and reports that too; one request at a time,
/// each stored before the next is made.
pub struct BatchRun {
    plan: Vec<FetchRequest>,
    done: Vec<Vec<IntradayPrice>>,
    pending: Option<Vec<IntradayPrice>>,
}

impl BatchRun {
    /// The requests of the whole batch, in order.
    pub closed spec fn requests(&self) -> Seq<FetchRequest> {
        self.plan@
    }

    /// What each finished request fetched, in the order of the requests.
    pub closed spec fn results(&self) -> Seq<Seq<IntradayPrice>> {
        self.done@.map_values(|v: Vec<IntradayPrice>| v@)
    }

    /// What the request in flight fetched, until it is stored.
    pub closed spec fn fetched(&self) -> Option<Seq<IntradayPrice>> {
        match self.pending {
            Some(v) => Some(v@),
            None => None,
        }
    }

    /// Number of requests made and stored.
    pub open spec fn position(&self) -> int {
        self.results().len() as int
    }

    pub open spec fn wf(&self) -> bool {
        self.position() <= self.requests().len()
    }

    /// Checks the range and lays out the batch (see `plan_batch`); an invalid
    /// range yields an error before any request exists.
    pub fn new(symbols: &Vec<String>, date_from: &str, date_to: &str) -> (r: Result<
        BatchRun,
        BatchError,
    >)
        ensures
            r is Ok <==> batch_check(date_from@, date_to@) is None,
            r matches Err(e) ==> batch_check(date_from@, date_to@) == Some(e),
            r matches Ok(run) ==> {
                &&& run.wf()
                &&& is_batch_plan(
                    symbols@,
                    iso_date_of(date_from@).unwrap(),
                    iso_date_of(date_to@).unwrap(),
                    run.requests(),
                )
                &&& run.results().len() == 0
                &&& run.fetched() is None
            },
    {
        match plan_batch(symbols, date_from, date_to) {
            Ok(plan) => {
                let run = BatchRun { plan, done: Vec::new(), pending: None };
                assert(run.results() =~= Seq::empty());
                Ok(run)
            },
            Err(e) => Err(e),
        }
    }

    /// The request to make next, or `None` once every request is stored.
    pub fn next_request(&self) -> (r: Option<&FetchRequest>)
        requires
            self.wf(),
            self.fetched() is None,
        ensures
            self.position() < self.requests().len() ==> r == Some(&self.requests()[self.position()]),
            self.position() == self.requests().len() ==> r is None,
    {
        let i = self.done.len();
        proof {
            assert(self.done@.len() == self.results().len());
        }
        if i < self.plan.len() {
            Some(&self.plan[i])
        } else {
            None
        }
    }

    /// Takes what the request in flight returned. On success, hands back the
    /// rows to store for it; a failed fetch or an observation that does not
    /// normalize ends the batch with an error.
    pub fn on_fetched(&mut self, outcome: Result<Vec<IntradayPrice>, String>) -> (r: Result<
        Vec<PriceRow>,
        BatchError,
    >)
        requires
            old(self).wf(),
            old(self).fetched() is None,
            old(self).position() < old(self).requests().len(),
        ensures
            final(self).requests() == old(self).requests(),
            final(self).results() == old(self).results(),
            final(self).wf(),
            match outcome {
                Err(msg) => r == Err::<Vec<PriceRow>, BatchError>(BatchError::RemoteFetch(msg)),
                Ok(items) => {
                    let symbol = old(self).requests()[old(self).position()].symbol@;
                    if all_normalizable(items@) {
                        &&& r matches Ok(rows) && rows@.len() == items@.len() && forall|i: int|
                            0 <= i < rows@.len() ==> (#[trigger] rows@[i]).stores_item(
                                symbol,
                                items@[i],
                            )
                        &&& final(self).fetched() == Some(items@)
                    } else {
                        r == Err::<Vec<PriceRow>, BatchError>(BatchError::Parse)
                    }
                },
            },
    {
        proof {
            assert(self.done@.len() == self.results().len());
        }
        match outcome {
            Err(msg) => Err(BatchError::RemoteFetch(msg)),
            Ok(items) => {
                let i = self.done.len();
                match price_rows(&self.plan[i].symbol, &items) {
                    Some(rows) => {
                        self.pending = Some(items);
                        Ok(rows)
                    },
                    None => Err(BatchError::Parse),
                }
            },
        }
    }

    /// Takes the outcome of storing the rows of the request in flight. On
    /// success the request is finished and its observations join the results;
    /// a failed write ends the batch with an error.
    pub fn on_stored(&mut self, outcome: Result<(), String>) -> (r: Result<(), BatchError>)
        requires
            old(self).wf(),
            old(self).fetched() is Some,
            old(self).position() < old(self).requests().len(),
        ensures
            final(self).requests() == old(self).requests(),
            final(self).wf(),
            match outcome {
                Err(msg) => r == Err::<(), BatchError>(BatchError::Storage(msg)),
                Ok(()) => {
                    &&& r is Ok
                    &&& final(self).results() == old(self).results().push(old(self).fetched().unwrap())
                    &&& final(self).fetched() is None
                },
            },
    {
        proof {
            assert(self.done@.len() == self.results().len());
        }
        match outcome {
            Err(msg) => Err(BatchError::Storage(msg)),
            Ok(()) => {
                let taken = self.pending.take();
                match taken {
                    Some(items) => {
                        let ghost before = self.done@;
                        self.done.push(items);
                        proof {
                            assert(self.done@.map_values(|v: Vec<IntradayPrice>| v@) =~= before.map_values(
                                |v: Vec<IntradayPrice>| v@,
                            ).push(items@));
                        }
                        Ok(())
                    },
                    None => Ok(()),
                }
            },
        }
    }

    /// The fetched observations of every request, in the order of the requests.
    pub fn into_results(self) -> (r: Vec<Vec<IntradayPrice>>)
        ensures
            r@.map_values(|v: Vec<IntradayPrice>| v@) == self.results(),
    {
        self.done
    }
}

} // verus!
