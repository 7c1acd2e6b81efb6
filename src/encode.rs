//! Shaping the last statement's output into the response.
//!
//! The engine hands its output over in batches whose cells are already
//! formatted. The columns come from the first batch that holds a row, so an
//! output without rows has no columns; the rows of all batches are joined in
//! order and cut to the first `MAX_RESULTS`.
use vstd::prelude::*;

verus! {

/// The most rows a response carries.
pub const MAX_RESULTS: usize = 500;

/// What a successful request answers: the columns as (name, type), the rows
/// as formatted cells, and the plans of the last statement.
pub struct SqlResult {
    pub columns: Vec<(String, String)>,
    pub rows: Vec<Vec<String>>,
    pub logical_plan: String,
    pub physical_plan: String,
}

/// One batch of the engine's output, with its cells formatted.
pub struct FormattedBatch {
    pub columns: Vec<(String, String)>,
    pub rows: Vec<Vec<String>>,
}

/// The columns of the first batch that holds a row; none where no batch does.
pub open spec fn first_columns(bs: Seq<FormattedBatch>) -> Seq<(String, String)>
    decreases bs.len(),
{
    if bs.len() == 0 {
        seq![]
    } else if bs[0].rows@.len() > 0 {
        bs[0].columns@
    } else {
        first_columns(bs.drop_first())
    }
}

/// The rows of all batches, in order.
pub open spec fn all_rows(bs: Seq<FormattedBatch>) -> Seq<Vec<String>>
    decreases bs.len(),
{
    if bs.len() == 0 {
        seq![]
    } else {
        bs[0].rows@ + all_rows(bs.drop_first())
    }
}

pub open spec fn capped(n: int) -> int {
    if n < MAX_RESULTS {
        n
    } else {
        MAX_RESULTS as int
    }
}

impl SqlResult {
    pub open spec fn is_empty_result(&self) -> bool {
        &&& self.columns@.len() == 0
        &&& self.rows@.len() == 0
        &&& self.logical_plan@.len() == 0
        &&& self.physical_plan@.len() == 0
    }

    /// The answer to an empty batch: no columns, no rows, no plans.
    pub fn empty() -> (r: SqlResult)
        ensures
            r.is_empty_result(),
    {
        SqlResult {
            columns: Vec::new(),
            rows: Vec::new(),
            logical_plan: String::new(),
            physical_plan: String::new(),
        }
    }
}

impl Default for SqlResult {
    fn default() -> (r: SqlResult)
        ensures
            r.is_empty_result(),
    {
        SqlResult::empty()
    }
}

/// The response for the last statement's output and its two plans.
pub fn encode(batches: Vec<FormattedBatch>, logical_plan: String, physical_plan: String) -> (r:
    SqlResult)
    ensures
        r.columns@ == first_columns(batches@),
        r.rows@ == all_rows(batches@).take(capped(all_rows(batches@).len() as int)),
        r.logical_plan == logical_plan,
        r.physical_plan == physical_plan,
{
    let ghost all = batches@;
    let mut batches = batches;
    let mut columns: Vec<(String, String)> = Vec::new();
    let mut rows: Vec<Vec<String>> = Vec::new();
    while batches.len() > 0
        invariant
            rows@ + all_rows(batches@) == all_rows(all),
            (if rows@.len() == 0 {
                first_columns(batches@)
            } else {
                columns@
            }) == first_columns(all),
            rows@.len() == 0 ==> columns@.len() == 0,
        decreases batches.len(),
    {
        let ghost rest = batches@;
        let mut b = batches.remove(0);
        assert(rest.drop_first() =~= batches@);
        if rows.len() == 0 && b.rows.len() > 0 {
            columns = b.columns;
        }
        proof {
            assert(all_rows(rest) == b.rows@ + all_rows(batches@));
            assert(rows@ + (b.rows@ + all_rows(batches@)) =~= (rows@ + b.rows@) + all_rows(
                batches@,
            ));
        }
        rows.append(&mut b.rows);
    }
    assert(rows@ =~= all_rows(all));
    assert(columns@ =~= first_columns(all));
    rows.truncate(MAX_RESULTS);
    assert(rows@ =~= all_rows(all).take(capped(all_rows(all).len() as int)));
    SqlResult { columns, rows, logical_plan, physical_plan }
}

/// An output without rows has no columns either.
pub proof fn law_no_rows_no_columns(bs: Seq<FormattedBatch>)
    requires
        all_rows(bs).len() == 0,
    ensures
        first_columns(bs).len() == 0,
    decreases bs.len(),
{
    if bs.len() > 0 {
        assert(all_rows(bs) == bs[0].rows@ + all_rows(bs.drop_first()));
        law_no_rows_no_columns(bs.drop_first());
    }
}

/// The response carries every row up to the cap, and never more.
pub proof fn law_row_cap(bs: Seq<FormattedBatch>, r: SqlResult)
    requires
        r.rows@ == all_rows(bs).take(capped(all_rows(bs).len() as int)),
    ensures
        all_rows(bs).len() <= MAX_RESULTS ==> r.rows@ == all_rows(bs),
        r.rows@.len() == if all_rows(bs).len() <= MAX_RESULTS {
            all_rows(bs).len() as int
        } else {
            MAX_RESULTS as int
        },
{
    assert(all_rows(bs).len() <= MAX_RESULTS ==> all_rows(bs).take(all_rows(bs).len() as int)
        =~= all_rows(bs));
}

/// A single batch of known columns and of one to `MAX_RESULTS` rows comes
/// back with exactly those column names, types and cells.
pub proof fn law_round_trip(b: FormattedBatch, r: SqlResult)
    requires
        0 < b.rows@.len() <= MAX_RESULTS,
        r.columns@ == first_columns(seq![b]),
        r.rows@ == all_rows(seq![b]).take(capped(all_rows(seq![b]).len() as int)),
    ensures
        r.columns@ == b.columns@,
        r.rows@ == b.rows@,
{
    let bs = seq![b];
    assert(bs[0] == b);
    assert(bs.drop_first() =~= Seq::<FormattedBatch>::empty());
    assert(all_rows(bs.drop_first()) == Seq::<Vec<String>>::empty());
    assert(first_columns(bs.drop_first()) == Seq::<(String, String)>::empty());
    assert(all_rows(bs) =~= b.rows@);
    assert(first_columns(bs) =~= b.columns@);
    assert(b.rows@.take(b.rows@.len() as int) =~= b.rows@);
}

} // verus!
