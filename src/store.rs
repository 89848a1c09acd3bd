use vstd::prelude::*;
use crate::model::{PriceRow, Timestamp};

verus! {

/// The key under which the price history holds a row.
pub open spec fn row_key(row: PriceRow) -> (Timestamp, Seq<char>) {
    (row.time, row.ticker@)
}

/// Some row of `rows` has the key `key`.
pub open spec fn holds_key(rows: Seq<PriceRow>, key: (Timestamp, Seq<char>)) -> bool {
    exists|i: int| 0 <= i < rows.len() && row_key(#[trigger] rows[i]) == key
}

/// No two rows share a key.
pub open spec fn keys_unique(rows: Seq<PriceRow>) -> bool {
    forall|i: int, j: int|
        0 <= i < rows.len() && 0 <= j < rows.len() && i != j ==> row_key(#[trigger] rows[i])
            != row_key(#[trigger] rows[j])
}

/// The rows after writing `row` with the conflict policy of the price
/// history: a row whose key is already held is left as it is.
pub open spec fn upserted(rows: Seq<PriceRow>, row: PriceRow) -> Seq<PriceRow> {
    if holds_key(rows, row_key(row)) {
        rows
    } else {
        rows.push(row)
    }
}

/// Number of rows of `rows` with the key `key`.
pub open spec fn rows_with_key(rows: Seq<PriceRow>, key: (Timestamp, Seq<char>)) -> nat {
    rows.filter(|r: PriceRow| row_key(r) == key).len()
}

/// The price history: rows keyed by (time, ticker), each key held once.
pub struct PriceTable {
    rows: Vec<PriceRow>,
}

impl PriceTable {
    pub closed spec fn view(&self) -> Seq<PriceRow> {
        self.rows@
    }

    pub open spec fn wf(&self) -> bool {
        keys_unique(self@)
    }

    /// An empty table.
    pub fn new() -> (r: PriceTable)
        ensures
            r@ == Seq::<PriceRow>::empty(),
            r.wf(),
    {
        PriceTable { rows: Vec::new() }
    }

    /// Number of rows held.
    pub fn len(&self) -> (r: usize)
        ensures
            r == self@.len(),
    {
        self.rows.len()
    }

    /// Writes `row` unless its key is already held; says whether it wrote.
    pub fn upsert(&mut self, row: PriceRow) -> (inserted: bool)
        requires
            old(self).wf(),
        ensures
            final(self).wf(),
            inserted == !holds_key(old(self)@, row_key(row)),
            final(self)@ == upserted(old(self)@, row),
    {
        let mut i: usize = 0;
        while i < self.rows.len()
            invariant
                i <= self.rows@.len(),
                self.rows@ == old(self).rows@,
                keys_unique(self.rows@),
                forall|k: int| 0 <= k < i ==> row_key(#[trigger] self.rows@[k]) != row_key(row),
            decreases self.rows@.len() - i,
        {
            if self.rows[i].time == row.time && self.rows[i].ticker == row.ticker {
                assert(row_key(self.rows@[i as int]) == row_key(row));
                return false;
            }
            i = i + 1;
        }
        self.rows.push(row);
        true
    }
}

/// Writing the same row twice leaves the table as writing it once, and the
/// table then holds exactly one row under its key.
pub proof fn lemma_upsert_idempotent(rows: Seq<PriceRow>, row: PriceRow)
    requires
        keys_unique(rows),
    ensures
        upserted(upserted(rows, row), row) == upserted(rows, row),
        rows_with_key(upserted(rows, row), row_key(row)) == 1,
{
    let once = upserted(rows, row);
    let key = row_key(row);
    let f = |r: PriceRow| row_key(r) == key;
    if holds_key(rows, key) {
        let i = choose|i: int| 0 <= i < rows.len() && row_key(#[trigger] rows[i]) == key;
        lemma_filter_single(rows, key, i);
    } else {
        assert(row_key(once[rows.len() as int]) == key);
        assert(holds_key(once, key));
        assert(rows.filter(f).len() == 0) by {
            lemma_filter_none(rows, key);
        }
        reveal(Seq::filter);
        assert(rows.push(row).drop_last() == rows);
        assert(rows.push(row).filter(f) == rows.filter(f).push(row));
    }
}

proof fn lemma_filter_none(rows: Seq<PriceRow>, key: (Timestamp, Seq<char>))
    requires
        !holds_key(rows, key),
    ensures
        rows.filter(|r: PriceRow| row_key(r) == key).len() == 0,
    decreases rows.len(),
{
    let f = |r: PriceRow| row_key(r) == key;
    if rows.len() > 0 {
        let init = rows.drop_last();
        assert(!holds_key(init, key)) by {
            if holds_key(init, key) {
                let i = choose|i: int| 0 <= i < init.len() && row_key(#[trigger] init[i]) == key;
                assert(row_key(rows[i]) == key);
            }
        }
        lemma_filter_none(init, key);
        assert(rows == init.push(rows.last()));
        reveal(Seq::filter);
        assert(row_key(rows[rows.len() - 1]) != key);
    }
}

proof fn lemma_filter_single(rows: Seq<PriceRow>, key: (Timestamp, Seq<char>), at: int)
    requires
        keys_unique(rows),
        0 <= at < rows.len(),
        row_key(rows[at]) == key,
    ensures
        rows.filter(|r: PriceRow| row_key(r) == key).len() == 1,
    decreases rows.len(),
{
    let f = |r: PriceRow| row_key(r) == key;
    let init = rows.drop_last();
    assert(rows == init.push(rows.last()));
    reveal(Seq::filter);
    if at == rows.len() - 1 {
        assert(!holds_key(init, key)) by {
            if holds_key(init, key) {
                let i = choose|i: int| 0 <= i < init.len() && row_key(#[trigger] init[i]) == key;
                assert(row_key(rows[i]) == row_key(rows[at]));
            }
        }
        lemma_filter_none(init, key);
    } else {
        assert(keys_unique(init)) by {
            assert forall|i: int, j: int|
                0 <= i < init.len() && 0 <= j < init.len() && i != j implies row_key(
                #[trigger] init[i],
            ) != row_key(#[trigger] init[j]) by {
                assert(init[i] == rows[i] && init[j] == rows[j]);
            }
        }
        assert(init[at] == rows[at]);
        lemma_filter_single(init, key, at);
        assert(row_key(rows[rows.len() - 1]) != row_key(rows[at]));
    }
}

} // verus!
