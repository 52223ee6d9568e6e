use vstd::prelude::*;

use crate::age::lemma_age_round_trip;
use crate::record::{decode_row, record_fields, Employee, EmployeeView};
use crate::store::CsvRows;

verus! {

/// Which records a query keeps.
pub enum Predicate {
    All,
    DepartmentEquals(String),
    NameEquals(String),
}

impl Predicate {
    /// Whether the predicate keeps `e`; names and departments compare exactly.
    pub open spec fn selects(&self, e: EmployeeView) -> bool {
        match self {
            Predicate::All => true,
            Predicate::DepartmentEquals(d) => e.department == d@,
            Predicate::NameEquals(n) => e.name == n@,
        }
    }

    pub fn accepts(&self, e: &Employee) -> (r: bool)
        ensures
            r == self.selects(e@),
    {
        match self {
            Predicate::All => true,
            Predicate::DepartmentEquals(d) => e.department == *d,
            Predicate::NameEquals(n) => e.name == *n,
        }
    }
}

/// The records of `s` that `p` keeps, in order.
pub open spec fn select(s: Seq<EmployeeView>, p: Predicate) -> Seq<EmployeeView>
    decreases s.len(),
{
    if s.len() == 0 {
        seq![]
    } else if p.selects(s.last()) {
        select(s.drop_last(), p).push(s.last())
    } else {
        select(s.drop_last(), p)
    }
}

/// The records that the data rows `rows` stand for, in order, up to the
/// first row that does not decode. `ok[i]` tells whether the salary of
/// `rows[i]` reads as a number.
pub open spec fn records_of(rows: Seq<Seq<Seq<char>>>, ok: Seq<bool>) -> Seq<EmployeeView>
    decreases rows.len(),
{
    if rows.len() == 0 {
        seq![]
    } else {
        let prev = records_of(rows.drop_last(), ok.drop_last());
        let last = decode_row(rows.last(), ok[rows.len() - 1]);
        if prev.len() == rows.len() - 1 && last is Some {
            prev.push(last->0)
        } else {
            prev
        }
    }
}

/// The records of a store file's rows: the first row is the header and is
/// skipped.
pub open spec fn stored_records(rows: Seq<Seq<Seq<char>>>, ok: Seq<bool>) -> Seq<EmployeeView> {
    if rows.len() == 0 {
        seq![]
    } else {
        records_of(rows.skip(1), ok.skip(1))
    }
}

/// The index among `rows` of the first row that cannot be read as a record,
/// if any: a data row that does not decode, or, where the reader stopped
/// early, the row it could not read.
pub open spec fn read_failure(rows: Seq<Seq<Seq<char>>>, ok: Seq<bool>, complete: bool) -> Option<nat> {
    let n = stored_records(rows, ok).len();
    if rows.len() > 0 && n < rows.len() - 1 {
        Some(n + 1)
    } else if !complete {
        Some(rows.len())
    } else {
        None
    }
}

/// The views of a sequence of records.
pub open spec fn views(s: Seq<Employee>) -> Seq<EmployeeView> {
    s.map_values(|e: Employee| e@)
}

/// Why a query gave no full answer.
#[derive(Debug, PartialEq, Eq)]
pub enum QueryError {
    /// The row at this index (the header is row 0) is malformed; no row after
    /// it was read.
    Parse { row: usize },
    /// A search found no record with the name.
    NoMatch,
}

/// The records a query returned, in file order, and the error that ended it.
/// Records before a malformed row are returned along with the error.
pub struct QueryOutcome {
    pub matches: Vec<Employee>,
    pub error: Option<QueryError>,
}

impl QueryOutcome {
    /// The number of records returned.
    pub fn count(&self) -> (r: usize)
        ensures
            r == self.matches@.len(),
    {
        self.matches.len()
    }
}

proof fn lemma_records_len(rows: Seq<Seq<Seq<char>>>, ok: Seq<bool>)
    ensures
        records_of(rows, ok).len() <= rows.len(),
    decreases rows.len(),
{
    if rows.len() > 0 {
        lemma_records_len(rows.drop_last(), ok.drop_last());
    }
}

proof fn lemma_records_stop(rows: Seq<Seq<Seq<char>>>, ok: Seq<bool>, k: int, m: int)
    requires
        0 <= k <= m <= rows.len(),
        m <= ok.len(),
        records_of(rows.take(k), ok.take(k)).len() < k,
    ensures
        records_of(rows.take(m), ok.take(m)) == records_of(rows.take(k), ok.take(k)),
    decreases m - k,
{
    if m > k {
        lemma_records_stop(rows, ok, k, m - 1);
        assert(rows.take(m).drop_last() =~= rows.take(m - 1));
        assert(ok.take(m).drop_last() =~= ok.take(m - 1));
    }
}

/// Reads the records of a store file's rows and keeps those that `pred`
/// selects. Reading stops at the first malformed row, which is reported
/// with the records found before it. `salary_ok[i]` tells whether the salary
/// field of row `i` reads as a number.
pub fn query(rows: &CsvRows, salary_ok: &Vec<bool>, pred: &Predicate) -> (r: QueryOutcome)
    requires
        salary_ok@.len() == rows.rows@.len(),
    ensures
        views(r.matches@) == select(stored_records(rows.rows.deep_view(), salary_ok@), *pred),
        r.error == match read_failure(rows.rows.deep_view(), salary_ok@, rows.complete) {
            Some(k) => Some(QueryError::Parse { row: k as usize }),
            None => None,
        },
{
    let ghost all = rows.rows.deep_view();
    let mut matches: Vec<Employee> = Vec::new();
    let n = rows.rows.len();
    if n == 0 {
        assert(views(matches@) =~= seq![]);
        return QueryOutcome {
            matches,
            error: if rows.complete { None } else { Some(QueryError::Parse { row: 0 }) },
        };
    }
    let ghost d = all.skip(1);
    let ghost f = salary_ok@.skip(1);
    let mut i: usize = 1;
    while i < n
        invariant
            1 <= i <= n,
            n == rows.rows@.len(),
            all == rows.rows.deep_view(),
            all.len() == n,
            d == all.skip(1),
            f == salary_ok@.skip(1),
            salary_ok@.len() == n,
            records_of(d.take(i - 1), f.take(i - 1)).len() == i - 1,
            views(matches@) == select(records_of(d.take(i - 1), f.take(i - 1)), *pred),
        decreases n - i,
    {
        let ghost j = i - 1;
        assert(d.take(j + 1).drop_last() =~= d.take(j));
        assert(f.take(j + 1).drop_last() =~= f.take(j));
        assert(d.take(j + 1).last() == all[i as int]);
        assert(f.take(j + 1).last() == salary_ok@[i as int]);
        assert(all[i as int] == rows.rows@[i as int].deep_view());
        match Employee::from_fields(&rows.rows[i], salary_ok[i]) {
            None => {
                proof {
                    lemma_records_stop(d, f, j + 1, d.len() as int);
                    assert(d.take(d.len() as int) =~= d);
                    assert(f.take(d.len() as int) =~= f);
                }
                return QueryOutcome { matches, error: Some(QueryError::Parse { row: i }) };
            },
            Some(e) => {
                let keep = pred.accepts(&e);
                let ghost before = matches@;
                proof {
                    let prev = records_of(d.take(j), f.take(j));
                    assert(records_of(d.take(j + 1), f.take(j + 1)) == prev.push(e@));
                    assert(prev.push(e@).drop_last() =~= prev);
                }
                if keep {
                    matches.push(e);
                    assert(views(matches@) =~= views(before).push(e@));
                }
            },
        }
        i = i + 1;
    }
    proof {
        assert(d.take(n - 1) =~= d);
        assert(f.take(n - 1) =~= f);
    }
    QueryOutcome { matches, error: if rows.complete { None } else { Some(QueryError::Parse { row: n }) } }
}

/// Lists the records of a store file's rows, all of them or those of one
/// department. Finding none is no error.
pub fn list(rows: &CsvRows, salary_ok: &Vec<bool>, department: Option<String>) -> (r: QueryOutcome)
    requires
        salary_ok@.len() == rows.rows@.len(),
    ensures
        views(r.matches@) == select(
            stored_records(rows.rows.deep_view(), salary_ok@),
            match department {
                None => Predicate::All,
                Some(d) => Predicate::DepartmentEquals(d),
            },
        ),
        r.error == match read_failure(rows.rows.deep_view(), salary_ok@, rows.complete) {
            Some(k) => Some(QueryError::Parse { row: k as usize }),
            None => None,
        },
{
    let pred = match department {
        None => Predicate::All,
        Some(d) => Predicate::DepartmentEquals(d),
    };
    query(rows, salary_ok, &pred)
}

/// Searches the records of a store file's rows for those named `name`.
/// Finding none is reported as `NoMatch`, unless a malformed row was met.
pub fn search(rows: &CsvRows, salary_ok: &Vec<bool>, name: &String) -> (r: QueryOutcome)
    requires
        salary_ok@.len() == rows.rows@.len(),
    ensures
        views(r.matches@) == select(
            stored_records(rows.rows.deep_view(), salary_ok@),
            Predicate::NameEquals(*name),
        ),
        r.error == match read_failure(rows.rows.deep_view(), salary_ok@, rows.complete) {
            Some(k) => Some(QueryError::Parse { row: k as usize }),
            None => if r.matches@.len() == 0 {
                Some(QueryError::NoMatch)
            } else {
                None
            },
        },
{
    let pred = Predicate::NameEquals(name.clone());
    let mut r = query(rows, salary_ok, &pred);
    if r.error.is_none() && r.matches.len() == 0 {
        r.error = Some(QueryError::NoMatch);
    }
    r
}

proof fn lemma_select_all(s: Seq<EmployeeView>)
    ensures
        select(s, Predicate::All) == s,
    decreases s.len(),
{
    if s.len() > 0 {
        lemma_select_all(s.drop_last());
        assert(s.drop_last().push(s.last()) =~= s);
    }
}

/// Appending the row of a record `e` to a store file whose rows all read
/// adds exactly one row, leaves the header row as it was, and reading back
/// gives the records that were there, in order, followed by `e`; a query of
/// all records returns the same. The new row's salary reads as a number.
pub proof fn lemma_append_record(rows: Seq<Seq<Seq<char>>>, ok: Seq<bool>, e: EmployeeView)
    requires
        rows.len() >= 1,
        ok.len() == rows.len(),
        read_failure(rows, ok, true) is None,
    ensures
        rows.push(record_fields(e)).len() == rows.len() + 1,
        rows.push(record_fields(e))[0] == rows[0],
        stored_records(rows.push(record_fields(e)), ok.push(true)) == stored_records(rows, ok).push(
            e,
        ),
        select(stored_records(rows.push(record_fields(e)), ok.push(true)), Predicate::All)
            == select(stored_records(rows, ok), Predicate::All).push(e),
        read_failure(rows.push(record_fields(e)), ok.push(true), true) is None,
{
    let rows2 = rows.push(record_fields(e));
    let ok2 = ok.push(true);
    lemma_age_round_trip(e.age);
    assert(decode_row(record_fields(e), true) == Some(e));
    assert(rows2.skip(1).drop_last() =~= rows.skip(1));
    assert(ok2.skip(1).drop_last() =~= ok.skip(1));
    lemma_records_len(rows.skip(1), ok.skip(1));
    let before = stored_records(rows, ok);
    lemma_select_all(before);
    lemma_select_all(before.push(e));
}

} // verus!
