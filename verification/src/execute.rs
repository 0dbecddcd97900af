//! Running a finished statement.
//!
//! The driver is not part of this library: each function here takes it as a
//! function `run`, hands it the statement in the form a driver takes, the
//! positional text and the values in the order of its markers, and turns
//! what it answers into the library's result.

use crate::error::{wrap_driver_result, BuildliteError, BuildliteErrorMatch};
use crate::query::{pointees, Query};
use crate::state::{QueryType, QueryView};
use vstd::pervasive::unreached;
use vstd::prelude::*;

verus! {

/// Whether `sql` and `args` are the statement of `q` in the form a driver
/// takes.
pub open spec fn is_bound<V>(q: QueryView<V>, sql: &str, args: Vec<&V>) -> bool {
    &&& sql@ == q.positional_text()
    &&& pointees(args@) == q.arg_values()
}

/// Whether `run` may be called with the statement of `q`.
pub open spec fn accepts<V, O, F: FnOnce(&str, Vec<&V>) -> O>(run: F, q: QueryView<V>) -> bool {
    forall|sql: &str, args: Vec<&V>|
        is_bound(q, sql, args) ==> #[trigger] call_requires(run, (sql, args))
}

/// Whether `out` is an answer of `run` to the statement of `q`.
pub open spec fn answers<V, O, F: FnOnce(&str, Vec<&V>) -> O>(
    run: F,
    q: QueryView<V>,
    out: O,
) -> bool {
    exists|sql: &str, args: Vec<&V>|
        is_bound(q, sql, args) && #[trigger] call_ensures(run, (sql, args), out)
}

/// The first of the rows that a `select` gave: on no rows
/// [`BuildliteError::NoRowsError`], on one or more rows the first, whatever
/// follows it.
pub open spec fn first_of<R>(rows: Seq<R>) -> Result<R, BuildliteError> {
    if rows.len() == 0 {
        Err(BuildliteError::NoRowsError)
    } else {
        Ok(rows[0])
    }
}

/// What `execute_row` makes of the driver's answer: the driver's error,
/// wrapped, or the first of its rows.
pub open spec fn first_row_of<R>(out: Result<Vec<R>, rusqlite::Error>) -> Result<
    R,
    BuildliteError,
> {
    match out {
        Ok(rows) => first_of(rows@),
        Err(e) => Err(BuildliteError::SQLError(e)),
    }
}

/// The first of `rows`, or [`BuildliteError::NoRowsError`] where there is
/// none. Rows after the first are dropped.
pub fn first_row<R>(rows: Vec<R>) -> (res: Result<R, BuildliteError>)
    ensures
        res == first_of(rows@),
{
    let mut rows = rows;
    if rows.len() == 0 {
        Err(BuildliteError::NoRowsError)
    } else {
        Ok(rows.swap_remove(0))
    }
}

impl<V> Query<V> {
    /// Runs a `select`. `run` is called once, with the positional text and
    /// the values in the order of the markers; it answers with the mapped
    /// rows or with the driver's error. The rows are handed on as they came;
    /// an error is wrapped in [`BuildliteError::SQLError`].
    pub fn execute<R, F>(self, run: F) -> (res: Result<Vec<R>, BuildliteError>) where
        F: FnOnce(&str, Vec<&V>) -> Result<Vec<R>, rusqlite::Error>,

        requires
            self.wf(),
            self@.kind == QueryType::Select,
            accepts(run, self@),
        ensures
            exists|out: Result<Vec<R>, rusqlite::Error>| #[trigger]
                answers(run, self@, out) && res == wrap_driver_result(out),
    {
        if !self.is_select() {
            unreached()
        }
        let (sql, args) = self.bind();
        let text = sql.as_str();
        let ghost shown = args;
        let out = run(text, args);
        assert(answers(run, self@, out)) by {
            assert(is_bound(self@, text, shown) && call_ensures(run, (text, shown), out));
        }
        out.quick_match()
    }

    /// Runs an `update`, which must hold an assignment. `run` is called once,
    /// with the positional text and the values in the order of the markers;
    /// it answers with the number of rows changed or with the driver's error.
    /// The number is handed on as it came; an error is wrapped in
    /// [`BuildliteError::SQLError`].
    pub fn execute_update<F>(self, run: F) -> (res: Result<usize, BuildliteError>) where
        F: FnOnce(&str, Vec<&V>) -> Result<usize, rusqlite::Error>,

        requires
            self.wf(),
            self@.kind == QueryType::Update,
            self@.set is Some,
            accepts(run, self@),
        ensures
            exists|out: Result<usize, rusqlite::Error>| #[trigger]
                answers(run, self@, out) && res == wrap_driver_result(out),
    {
        if !self.is_update() {
            unreached()
        }
        let (sql, args) = self.bind();
        let text = sql.as_str();
        let ghost shown = args;
        let out = run(text, args);
        assert(answers(run, self@, out)) by {
            assert(is_bound(self@, text, shown) && call_ensures(run, (text, shown), out));
        }
        out.quick_match()
    }

    /// Runs a `select` as [`Query::execute`] does and keeps the first row: on
    /// no rows the result is [`BuildliteError::NoRowsError`], on several it is
    /// the first alone.
    pub fn execute_row<R, F>(self, run: F) -> (res: Result<R, BuildliteError>) where
        F: FnOnce(&str, Vec<&V>) -> Result<Vec<R>, rusqlite::Error>,

        requires
            self.wf(),
            self@.kind == QueryType::Select,
            accepts(run, self@),
        ensures
            exists|out: Result<Vec<R>, rusqlite::Error>| #[trigger]
                answers(run, self@, out) && res == first_row_of(out),
    {
        let ghost state = self@;
        match self.execute(run) {
            Ok(rows) => {
                let ghost out = choose|out: Result<Vec<R>, rusqlite::Error>| #[trigger]
                    answers(run, state, out) && Ok::<Vec<R>, BuildliteError>(rows)
                        == wrap_driver_result(out);
                let res = first_row(rows);
                assert(answers(run, state, out) && res == first_row_of(out));
                res
            },
            Err(e) => {
                let ghost out = choose|out: Result<Vec<R>, rusqlite::Error>| #[trigger]
                    answers(run, state, out) && Err::<Vec<R>, BuildliteError>(e)
                        == wrap_driver_result(out);
                assert(answers(run, state, out) && Err::<R, BuildliteError>(e) == first_row_of(
                    out,
                ));
                Err(e)
            },
        }
    }
}

} // verus!
