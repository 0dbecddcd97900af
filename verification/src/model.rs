//! The identity of a table, as the statements name it.

use vstd::prelude::*;

verus! {

/// The schema identity of one table: where it lives, what a statement calls
/// it, and the column that identifies its rows.
#[derive(Debug)]
pub struct Model {
    /// The database (schema) that holds the table.
    pub db: String,
    /// The table's name.
    pub table: String,
    /// The short name that stands for the table within one statement.
    pub alias: String,
    /// The primary-key column.
    pub primary_key: String,
}

/// A [`Model`] as text.
pub struct ModelView {
    pub db: Seq<char>,
    pub table: Seq<char>,
    pub alias: Seq<char>,
    pub primary_key: Seq<char>,
}

impl View for Model {
    type V = ModelView;

    open spec fn view(&self) -> ModelView {
        ModelView {
            db: self.db@,
            table: self.table@,
            alias: self.alias@,
            primary_key: self.primary_key@,
        }
    }
}

impl ModelView {
    /// `select <alias>.*`
    pub open spec fn select_text(self) -> Seq<char> {
        "select "@ + self.alias + ".*"@
    }

    /// `from <db>.<table> as <alias>`
    pub open spec fn from_text(self) -> Seq<char> {
        "from "@ + self.db + "."@ + self.table + " as "@ + self.alias
    }

    /// `update <db>.<table>`
    pub open spec fn update_text(self) -> Seq<char> {
        "update "@ + self.db + "."@ + self.table
    }

    /// `join <db>.<table> as <alias> on`, the head of a join on this table.
    pub open spec fn join_text(self) -> Seq<char> {
        "join "@ + self.db + "."@ + self.table + " as "@ + self.alias + " on "@
    }

    /// `<alias>.<column>`
    pub open spec fn qualified(self, column: Seq<char>) -> Seq<char> {
        self.alias + "."@ + column
    }
}

impl Clone for Model {
    /// A copy with the same four names.
    fn clone(&self) -> (m: Model)
        ensures
            m@ == self@,
    {
        Model {
            db: self.db.clone(),
            table: self.table.clone(),
            alias: self.alias.clone(),
            primary_key: self.primary_key.clone(),
        }
    }
}

impl Model {
    /// A model from its four names.
    pub fn new(db: &str, table: &str, alias: &str, primary_key: &str) -> (m: Model)
        ensures
            m@ == (ModelView { db: db@, table: table@, alias: alias@, primary_key: primary_key@ }),
    {
        Model {
            db: String::from_str(db),
            table: String::from_str(table),
            alias: String::from_str(alias),
            primary_key: String::from_str(primary_key),
        }
    }

    /// Appends `<alias>.<column>` to `out`.
    pub fn push_qualified(&self, out: &mut String, column: &str)
        ensures
            final(out)@ == old(out)@ + self@.qualified(column@),
    {
        out.append(self.alias.as_str());
        out.append(".");
        out.append(column);
        assert(old(out)@ + self.alias@ + "."@ + column@ =~= old(out)@ + self@.qualified(column@));
    }
}

} // verus!
