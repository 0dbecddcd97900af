//! The statement builder.
//!
//! A [`Query`] is made for one table by [`Query::select`] or
//! [`Query::update`]. Each chained call takes the builder and returns it with
//! one fragment longer; a call that binds a value also registers it under the
//! next placeholder number. [`Query::query_to_string`] renders the statement
//! in its fixed clause order, and [`Query::bind`] gives it in the form a
//! driver takes.

use crate::fragment::{lemma_numbers_contains, lemma_push, numbers, Fragment, Token};
use crate::model::Model;
use crate::params::ParamStore;
use crate::laws::{
    lemma_clause_order, lemma_every_value_bound_once, lemma_new, lemma_next_number_is_free,
    lemma_with_assignment, lemma_with_filter, lemma_with_join, lemma_with_join_and,
    lemma_with_join_filter, lemma_with_ordering, lemma_with_word,
};
use crate::state::{QueryType, QueryView};
use vstd::pervasive::unreached;
use vstd::prelude::*;

verus! {

/// The values that a list of references points to.
pub open spec fn pointees<V>(refs: Seq<&V>) -> Seq<V> {
    Seq::new(refs.len(), |k: int| *refs[k])
}

/// A statement under construction.
///
/// `V` is the type of the bound values; the builder stores them and hands
/// them back in the order that the placeholders have in the text, and never
/// looks into them.
pub struct Query<V> {
    query_type: QueryType,
    model: Model,
    select: String,
    update: String,
    from: String,
    set: Option<Fragment>,
    join: Option<Fragment>,
    clause: Option<Fragment>,
    orderby: Option<String>,
    select_params: ParamStore<V>,
    update_params: ParamStore<V>,
}

/// The tokens of a fragment that may be absent.
pub open spec fn fragment_view(fragment: Option<Fragment>) -> Option<Seq<Token>> {
    match fragment {
        Some(f) => Some(f@),
        None => None,
    }
}

/// The text of a string that may be absent.
pub open spec fn text_view(text: Option<String>) -> Option<Seq<char>> {
    match text {
        Some(t) => Some(t@),
        None => None,
    }
}

impl<V> View for Query<V> {
    type V = QueryView<V>;

    closed spec fn view(&self) -> QueryView<V> {
        QueryView {
            kind: self.query_type,
            model: self.model@,
            set: fragment_view(self.set),
            join: fragment_view(self.join),
            clause: fragment_view(self.clause),
            orderby: text_view(self.orderby),
            filter: self.select_params@,
            assignment: self.update_params@,
        }
    }
}

impl<V> Query<V> {
    /// The builder's invariant: its state is one that the builder's calls can
    /// reach, and the fixed texts are those of its table.
    pub closed spec fn wf(&self) -> bool {
        &&& self@.valid()
        &&& self@.param_count() <= usize::MAX
        &&& self.select_params.wf()
        &&& self.update_params.wf()
        &&& self.select@ == self.model@.select_text()
        &&& self.query_type == QueryType::Select ==> self.from@ == self.model@.from_text()
        &&& self.query_type == QueryType::Update ==> self.update@ == self.model@.update_text()
    }

    /// The state of a well-formed builder is valid.
    pub proof fn lemma_valid(&self)
        requires
            self.wf(),
        ensures
            self@.valid(),
    {
    }

    /// Whether the builder assembles a `select`.
    pub fn is_select(&self) -> (b: bool)
        ensures
            b == (self@.kind == QueryType::Select),
    {
        match self.query_type {
            QueryType::Select => true,
            QueryType::Update => false,
        }
    }

    /// Whether the builder assembles an `update`.
    pub fn is_update(&self) -> (b: bool)
        ensures
            b == (self@.kind == QueryType::Update),
    {
        match self.query_type {
            QueryType::Select => false,
            QueryType::Update => true,
        }
    }

    /// Whether an assignment was made.
    pub fn has_set(&self) -> (b: bool)
        ensures
            b == (self@.set is Some),
    {
        self.set.is_some()
    }

    /// Whether a table was joined.
    pub fn has_join(&self) -> (b: bool)
        ensures
            b == (self@.join is Some),
    {
        self.join.is_some()
    }

    /// Whether a predicate was given.
    pub fn has_clause(&self) -> (b: bool)
        ensures
            b == (self@.clause is Some),
    {
        self.clause.is_some()
    }

    /// How many values are registered, both stores together.
    pub fn param_count(&self) -> (n: usize)
        requires
            self.wf(),
        ensures
            n == self@.param_count(),
    {
        self.select_params.len() + self.update_params.len()
    }

    /// A builder for a `select` on the table of `model`.
    pub fn select(model: &Model) -> (q: Query<V>)
        ensures
            q.wf(),
            q@ == QueryView::<V>::new_select(model@),
    {
        let mut select = String::from_str("select ");
        select.append(model.alias.as_str());
        select.append(".*");
        let mut from = String::from_str("from ");
        from.append(model.db.as_str());
        from.append(".");
        from.append(model.table.as_str());
        from.append(" as ");
        from.append(model.alias.as_str());
        let q = Query {
            query_type: QueryType::Select,
            model: model.clone(),
            select,
            update: String::new(),
            set: None,
            from,
            join: None,
            clause: None,
            orderby: None,
            select_params: ParamStore::new(),
            update_params: ParamStore::new(),
        };
        proof {
            lemma_new::<V>(model@);
        }
        q
    }

    /// A builder for an `update` of the table of `model`.
    pub fn update(model: &Model) -> (q: Query<V>)
        ensures
            q.wf(),
            q@ == QueryView::<V>::new_update(model@),
    {
        let mut select = String::from_str("select ");
        select.append(model.alias.as_str());
        select.append(".*");
        let mut update = String::from_str("update ");
        update.append(model.db.as_str());
        update.append(".");
        update.append(model.table.as_str());
        let q = Query {
            query_type: QueryType::Update,
            model: model.clone(),
            select,
            update,
            set: None,
            from: String::new(),
            join: None,
            clause: None,
            orderby: None,
            select_params: ParamStore::new(),
            update_params: ParamStore::new(),
        };
        proof {
            lemma_new::<V>(model@);
        }
        q
    }

    /// Assigns `value` to `column`: an `update` only.
    pub fn set(self, column: &str, value: V) -> (q: Query<V>)
        requires
            self.wf(),
            self@.kind == QueryType::Update,
            self@.param_count() < usize::MAX,
        ensures
            q.wf(),
            q@ == self@.with_assignment(column@, value),
            q@.param_count() == self@.param_count() + 1,
    {
        proof {
            lemma_with_assignment(self@, column@, value);
            lemma_next_number_is_free(self@);
        }
        let mut q = self;
        match q.query_type {
            QueryType::Update => {},
            QueryType::Select => unreached(),
        }
        let n = q.param_count();
        let mut lead;
        let mut fragment;
        match q.set.take() {
            None => {
                lead = String::from_str("set ");
                fragment = Fragment::new();
            },
            Some(f) => {
                lead = String::from_str(", ");
                fragment = f;
            },
        }
        lead.append(column);
        lead.append(" = ");
        fragment.push_text(lead);
        fragment.push_param(n);
        q.set = Some(fragment);
        q.update_params.insert(n, value);
        q
    }

    /// Appends one join to the join list of a `select`.
    fn push_join(self, other: &Model, left: &str, right: &str) -> (q: Query<V>)
        requires
            self.wf(),
            self@.kind == QueryType::Select,
        ensures
            q.wf(),
            q@ == self@.with_join(other@, left@, right@),
            q@.param_count() == self@.param_count(),
    {
        proof {
            lemma_with_join(self@, other@, left@, right@);
        }
        let mut q = self;
        match q.query_type {
            QueryType::Select => {},
            QueryType::Update => unreached(),
        }
        let mut text;
        let mut fragment;
        match q.join.take() {
            None => {
                text = String::new();
                fragment = Fragment::new();
            },
            Some(f) => {
                text = String::from_str(" ");
                fragment = f;
            },
        }
        let ghost lead = text@;
        text.append("join ");
        text.append(other.db.as_str());
        text.append(".");
        text.append(other.table.as_str());
        text.append(" as ");
        text.append(other.alias.as_str());
        text.append(" on ");
        q.model.push_qualified(&mut text, left);
        text.append(" = ");
        other.push_qualified(&mut text, right);
        assert(text@ =~= lead + other@.join_text() + q.model@.qualified(left@) + " = "@
            + other@.qualified(right@));
        fragment.push_text(text);
        q.join = Some(fragment);
        q
    }

    /// Joins the table of `other`, which this builder's table refers to by
    /// its column `foreign_key`: `on <own alias>.<foreign_key> =
    /// <alias>.<primary key of other>`. A `select` only.
    pub fn join_fk(self, other: &Model, foreign_key: &str) -> (q: Query<V>)
        requires
            self.wf(),
            self@.kind == QueryType::Select,
        ensures
            q.wf(),
            q@ == self@.with_join(other@, foreign_key@, other@.primary_key),
            q@.param_count() == self@.param_count(),
    {
        self.push_join(other, foreign_key, other.primary_key.as_str())
    }

    /// Joins the table of `other`, which refers to this builder's table by
    /// its column `foreign_key`: `on <own alias>.<own primary key> =
    /// <alias>.<foreign_key>`. A `select` only.
    pub fn join(self, other: &Model, foreign_key: &str) -> (q: Query<V>)
        requires
            self.wf(),
            self@.kind == QueryType::Select,
        ensures
            q.wf(),
            q@ == self@.with_join(other@, self@.model.primary_key, foreign_key@),
            q@.param_count() == self@.param_count(),
    {
        let own_key = self.model.primary_key.clone();
        self.push_join(other, own_key.as_str(), foreign_key)
    }

    /// Appends `and` to the join list, which must be there.
    pub fn join_and(self) -> (q: Query<V>)
        requires
            self.wf(),
            self@.kind == QueryType::Select,
            self@.join is Some,
        ensures
            q.wf(),
            q@ == self@.with_join_and(),
            q@.param_count() == self@.param_count(),
    {
        proof {
            lemma_with_join_and(self@);
        }
        let mut q = self;
        match q.query_type {
            QueryType::Select => {},
            QueryType::Update => unreached(),
        }
        let mut fragment = match q.join.take() {
            Some(f) => f,
            None => unreached(),
        };
        let mut text = String::from_str(" ");
        text.append("and");
        fragment.push_text(text);
        q.join = Some(fragment);
        q
    }

    /// Appends to the join list, which must be there, a comparison of a
    /// column of `other` with `value`.
    fn filter_join(self, op: &str, other: &Model, column: &str, value: V) -> (q: Query<V>)
        requires
            self.wf(),
            self@.kind == QueryType::Select,
            self@.join is Some,
            self@.param_count() < usize::MAX,
        ensures
            q.wf(),
            q@ == self@.with_join_filter(op@, other@.alias, column@, value),
            q@.param_count() == self@.param_count() + 1,
    {
        proof {
            lemma_with_join_filter(self@, op@, other@.alias, column@, value);
            lemma_next_number_is_free(self@);
        }
        let mut q = self;
        match q.query_type {
            QueryType::Select => {},
            QueryType::Update => unreached(),
        }
        let n = q.param_count();
        let mut fragment = match q.join.take() {
            Some(f) => f,
            None => unreached(),
        };
        let mut lead = String::from_str(" ");
        other.push_qualified(&mut lead, column);
        lead.append(" ");
        lead.append(op);
        lead.append(" ");
        assert(lead@ =~= " "@ + other@.alias + "."@ + column@ + " "@ + op@ + " "@);
        fragment.push_text(lead);
        fragment.push_param(n);
        q.join = Some(fragment);
        q.select_params.insert(n, value);
        q
    }

    /// As [`Query::filter_join`], for a table joined by [`Query::join_fk`].
    fn filter_join_fk(self, op: &str, other: &Model, column: &str, value: V) -> (q: Query<V>)
        requires
            self.wf(),
            self@.kind == QueryType::Select,
            self@.join is Some,
            self@.param_count() < usize::MAX,
        ensures
            q.wf(),
            q@ == self@.with_join_filter(op@, other@.alias, column@, value),
            q@.param_count() == self@.param_count() + 1,
    {
        self.filter_join(op, other, column, value)
    }

    /// Appends to the join list ` <alias>.<column> = ` and the next
    /// placeholder: the column of `other`, joined by [`Query::join_fk`], is
    /// equal to `value`.
    pub fn join_fk_eq(self, other: &Model, column: &str, value: V) -> (q: Query<V>)
        requires
            self.wf(),
            self@.kind == QueryType::Select,
            self@.join is Some,
            self@.param_count() < usize::MAX,
        ensures
            q.wf(),
            q@ == self@.with_join_filter("="@, other@.alias, column@, value),
            q@.param_count() == self@.param_count() + 1,
    {
        self.filter_join_fk("=", other, column, value)
    }

    /// Appends to the join list ` <alias>.<column> != ` and the next
    /// placeholder: the column of `other`, joined by [`Query::join_fk`], is
    /// not equal to `value`.
    pub fn join_fk_ne(self, other: &Model, column: &str, value: V) -> (q: Query<V>)
        requires
            self.wf(),
            self@.kind == QueryType::Select,
            self@.join is Some,
            self@.param_count() < usize::MAX,
        ensures
            q.wf(),
            q@ == self@.with_join_filter("!="@, other@.alias, column@, value),
            q@.param_count() == self@.param_count() + 1,
    {
        self.filter_join_fk("!=", other, column, value)
    }

    /// Appends to the join list ` <alias>.<column> > ` and the next
    /// placeholder: the column of `other`, joined by [`Query::join_fk`], is
    /// greater than `value`.
    pub fn join_fk_gt(self, other: &Model, column: &str, value: V) -> (q: Query<V>)
        requires
            self.wf(),
            self@.kind == QueryType::Select,
            self@.join is Some,
            self@.param_count() < usize::MAX,
        ensures
            q.wf(),
            q@ == self@.with_join_filter(">"@, other@.alias, column@, value),
            q@.param_count() == self@.param_count() + 1,
    {
        self.filter_join_fk(">", other, column, value)
    }

    /// Appends to the join list ` <alias>.<column> < ` and the next
    /// placeholder: the column of `other`, joined by [`Query::join_fk`], is
    /// less than `value`.
    pub fn join_fk_lt(self, other: &Model, column: &str, value: V) -> (q: Query<V>)
        requires
            self.wf(),
            self@.kind == QueryType::Select,
            self@.join is Some,
            self@.param_count() < usize::MAX,
        ensures
            q.wf(),
            q@ == self@.with_join_filter("<"@, other@.alias, column@, value),
            q@.param_count() == self@.param_count() + 1,
    {
        self.filter_join_fk("<", other, column, value)
    }

    /// Appends to the join list ` <alias>.<column> >= ` and the next
    /// placeholder: the column of `other`, joined by [`Query::join_fk`], is
    /// greater than or equal to `value`.
    pub fn join_fk_ge(self, other: &Model, column: &str, value: V) -> (q: Query<V>)
        requires
            self.wf(),
            self@.kind == QueryType::Select,
            self@.join is Some,
            self@.param_count() < usize::MAX,
        ensures
            q.wf(),
            q@ == self@.with_join_filter(">="@, other@.alias, column@, value),
            q@.param_count() == self@.param_count() + 1,
    {
        self.filter_join_fk(">=", other, column, value)
    }

    /// Appends to the join list ` <alias>.<column> <= ` and the next
    /// placeholder: the column of `other`, joined by [`Query::join_fk`], is
    /// less than or equal to `value`.
    pub fn join_fk_le(self, other: &Model, column: &str, value: V) -> (q: Query<V>)
        requires
            self.wf(),
            self@.kind == QueryType::Select,
            self@.join is Some,
            self@.param_count() < usize::MAX,
        ensures
            q.wf(),
            q@ == self@.with_join_filter("<="@, other@.alias, column@, value),
            q@.param_count() == self@.param_count() + 1,
    {
        self.filter_join_fk("<=", other, column, value)
    }

    /// Appends to the join list ` <alias>.<column> = ` and the next
    /// placeholder: the column of `other`, joined by [`Query::join`], is
    /// equal to `value`.
    pub fn join_eq(self, other: &Model, column: &str, value: V) -> (q: Query<V>)
        requires
            self.wf(),
            self@.kind == QueryType::Select,
            self@.join is Some,
            self@.param_count() < usize::MAX,
        ensures
            q.wf(),
            q@ == self@.with_join_filter("="@, other@.alias, column@, value),
            q@.param_count() == self@.param_count() + 1,
    {
        self.filter_join("=", other, column, value)
    }

    /// Appends to the join list ` <alias>.<column> != ` and the next
    /// placeholder: the column of `other`, joined by [`Query::join`], is
    /// not equal to `value`.
    pub fn join_ne(self, other: &Model, column: &str, value: V) -> (q: Query<V>)
        requires
            self.wf(),
            self@.kind == QueryType::Select,
            self@.join is Some,
            self@.param_count() < usize::MAX,
        ensures
            q.wf(),
            q@ == self@.with_join_filter("!="@, other@.alias, column@, value),
            q@.param_count() == self@.param_count() + 1,
    {
        self.filter_join("!=", other, column, value)
    }

    /// Appends to the join list ` <alias>.<column> > ` and the next
    /// placeholder: the column of `other`, joined by [`Query::join`], is
    /// greater than `value`.
    pub fn join_gt(self, other: &Model, column: &str, value: V) -> (q: Query<V>)
        requires
            self.wf(),
            self@.kind == QueryType::Select,
            self@.join is Some,
            self@.param_count() < usize::MAX,
        ensures
            q.wf(),
            q@ == self@.with_join_filter(">"@, other@.alias, column@, value),
            q@.param_count() == self@.param_count() + 1,
    {
        self.filter_join(">", other, column, value)
    }

    /// Appends to the join list ` <alias>.<column> < ` and the next
    /// placeholder: the column of `other`, joined by [`Query::join`], is
    /// less than `value`.
    pub fn join_lt(self, other: &Model, column: &str, value: V) -> (q: Query<V>)
        requires
            self.wf(),
            self@.kind == QueryType::Select,
            self@.join is Some,
            self@.param_count() < usize::MAX,
        ensures
            q.wf(),
            q@ == self@.with_join_filter("<"@, other@.alias, column@, value),
            q@.param_count() == self@.param_count() + 1,
    {
        self.filter_join("<", other, column, value)
    }

    /// Appends to the join list ` <alias>.<column> >= ` and the next
    /// placeholder: the column of `other`, joined by [`Query::join`], is
    /// greater than or equal to `value`.
    pub fn join_ge(self, other: &Model, column: &str, value: V) -> (q: Query<V>)
        requires
            self.wf(),
            self@.kind == QueryType::Select,
            self@.join is Some,
            self@.param_count() < usize::MAX,
        ensures
            q.wf(),
            q@ == self@.with_join_filter(">="@, other@.alias, column@, value),
            q@.param_count() == self@.param_count() + 1,
    {
        self.filter_join(">=", other, column, value)
    }

    /// Appends to the join list ` <alias>.<column> <= ` and the next
    /// placeholder: the column of `other`, joined by [`Query::join`], is
    /// less than or equal to `value`.
    pub fn join_le(self, other: &Model, column: &str, value: V) -> (q: Query<V>)
        requires
            self.wf(),
            self@.kind == QueryType::Select,
            self@.join is Some,
            self@.param_count() < usize::MAX,
        ensures
            q.wf(),
            q@ == self@.with_join_filter("<="@, other@.alias, column@, value),
            q@.param_count() == self@.param_count() + 1,
    {
        self.filter_join("<=", other, column, value)
    }

    /// Appends to the predicate clause a comparison of `column` with `value`.
    fn filter(self, op: &str, model: &Model, column: &str, value: V) -> (q: Query<V>)
        requires
            self.wf(),
            self@.param_count() < usize::MAX,
        ensures
            q.wf(),
            q@ == self@.with_filter(op@, model@.alias, column@, value),
            q@.param_count() == self@.param_count() + 1,
    {
        proof {
            lemma_with_filter(self@, op@, model@.alias, column@, value);
            lemma_next_number_is_free(self@);
        }
        let mut q = self;
        let n = q.param_count();
        let mut lead;
        let mut fragment;
        match q.clause.take() {
            None => {
                lead = String::from_str("where ");
                fragment = Fragment::new();
            },
            Some(f) => {
                lead = String::from_str(" ");
                fragment = f;
            },
        }
        let ghost start = lead@;
        let ghost qualifier = if q.query_type == QueryType::Select {
            model@.alias + "."@
        } else {
            Seq::<char>::empty()
        };
        match q.query_type {
            QueryType::Select => {
                lead.append(model.alias.as_str());
                lead.append(".");
            },
            QueryType::Update => {},
        }
        lead.append(column);
        lead.append(" ");
        lead.append(op);
        lead.append(" ");
        assert(lead@ =~= start + qualifier + column@ + " "@ + op@ + " "@);
        fragment.push_text(lead);
        fragment.push_param(n);
        q.clause = Some(fragment);
        q.select_params.insert(n, value);
        q
    }

    /// Appends to the predicate clause `<column> = ` and the next
    /// placeholder: the column is equal to `value`. In a `select` the column
    /// is qualified by the alias of `model`.
    pub fn where_eq(self, model: &Model, column: &str, value: V) -> (q: Query<V>)
        requires
            self.wf(),
            self@.param_count() < usize::MAX,
        ensures
            q.wf(),
            q@ == self@.with_filter("="@, model@.alias, column@, value),
            q@.param_count() == self@.param_count() + 1,
    {
        self.filter("=", model, column, value)
    }

    /// Appends to the predicate clause `<column> != ` and the next
    /// placeholder: the column is not equal to `value`. In a `select` the column
    /// is qualified by the alias of `model`.
    pub fn where_ne(self, model: &Model, column: &str, value: V) -> (q: Query<V>)
        requires
            self.wf(),
            self@.param_count() < usize::MAX,
        ensures
            q.wf(),
            q@ == self@.with_filter("!="@, model@.alias, column@, value),
            q@.param_count() == self@.param_count() + 1,
    {
        self.filter("!=", model, column, value)
    }

    /// Appends to the predicate clause `<column> > ` and the next
    /// placeholder: the column is greater than `value`. In a `select` the column
    /// is qualified by the alias of `model`.
    pub fn where_gt(self, model: &Model, column: &str, value: V) -> (q: Query<V>)
        requires
            self.wf(),
            self@.param_count() < usize::MAX,
        ensures
            q.wf(),
            q@ == self@.with_filter(">"@, model@.alias, column@, value),
            q@.param_count() == self@.param_count() + 1,
    {
        self.filter(">", model, column, value)
    }

    /// Appends to the predicate clause `<column> < ` and the next
    /// placeholder: the column is less than `value`. In a `select` the column
    /// is qualified by the alias of `model`.
    pub fn where_lt(self, model: &Model, column: &str, value: V) -> (q: Query<V>)
        requires
            self.wf(),
            self@.param_count() < usize::MAX,
        ensures
            q.wf(),
            q@ == self@.with_filter("<"@, model@.alias, column@, value),
            q@.param_count() == self@.param_count() + 1,
    {
        self.filter("<", model, column, value)
    }

    /// Appends to the predicate clause `<column> >= ` and the next
    /// placeholder: the column is greater than or equal to `value`. In a `select` the column
    /// is qualified by the alias of `model`.
    pub fn where_ge(self, model: &Model, column: &str, value: V) -> (q: Query<V>)
        requires
            self.wf(),
            self@.param_count() < usize::MAX,
        ensures
            q.wf(),
            q@ == self@.with_filter(">="@, model@.alias, column@, value),
            q@.param_count() == self@.param_count() + 1,
    {
        self.filter(">=", model, column, value)
    }

    /// Appends to the predicate clause `<column> <= ` and the next
    /// placeholder: the column is less than or equal to `value`. In a `select` the column
    /// is qualified by the alias of `model`.
    pub fn where_le(self, model: &Model, column: &str, value: V) -> (q: Query<V>)
        requires
            self.wf(),
            self@.param_count() < usize::MAX,
        ensures
            q.wf(),
            q@ == self@.with_filter("<="@, model@.alias, column@, value),
            q@.param_count() == self@.param_count() + 1,
    {
        self.filter("<=", model, column, value)
    }

    /// Appends a word to the predicate clause, which must be there.
    fn concat(self, word: &str) -> (q: Query<V>)
        requires
            self.wf(),
            self@.clause is Some,
        ensures
            q.wf(),
            q@ == self@.with_word(word@),
            q@.param_count() == self@.param_count(),
    {
        proof {
            lemma_with_word(self@, word@);
        }
        let mut q = self;
        let mut fragment = match q.clause.take() {
            Some(f) => f,
            None => unreached(),
        };
        let mut text = String::from_str(" ");
        text.append(word);
        fragment.push_text(text);
        q.clause = Some(fragment);
        q
    }

    /// Appends `and` to the predicate clause, which must be there.
    pub fn and(self) -> (q: Query<V>)
        requires
            self.wf(),
            self@.clause is Some,
        ensures
            q.wf(),
            q@ == self@.with_word("and"@),
            q@.param_count() == self@.param_count(),
    {
        self.concat("and")
    }

    /// Appends `or` to the predicate clause, which must be there.
    pub fn or(self) -> (q: Query<V>)
        requires
            self.wf(),
            self@.clause is Some,
        ensures
            q.wf(),
            q@ == self@.with_word("or"@),
            q@.param_count() == self@.param_count(),
    {
        self.concat("or")
    }

    /// Appends one column and its direction to the ordering list of a
    /// `select`.
    fn orderby(self, dir: &str, column: &str) -> (q: Query<V>)
        requires
            self.wf(),
            self@.kind == QueryType::Select,
        ensures
            q.wf(),
            q@ == self@.with_ordering(dir@, column@),
            q@.param_count() == self@.param_count(),
    {
        proof {
            lemma_with_ordering(self@, dir@, column@);
        }
        let mut q = self;
        match q.query_type {
            QueryType::Select => {},
            QueryType::Update => unreached(),
        }
        let mut text;
        match q.orderby.take() {
            None => {
                text = String::from_str("order by ");
            },
            Some(t) => {
                text = t;
                text.append(", ");
            },
        }
        let ghost before = text@;
        q.model.push_qualified(&mut text, column);
        text.append(" ");
        text.append(dir);
        assert(text@ =~= before + q.model@.qualified(column@) + " "@ + dir@);
        q.orderby = Some(text);
        q
    }

    /// Orders the rows of a `select` by `column`, ascending.
    pub fn orderby_asc(self, column: &str) -> (q: Query<V>)
        requires
            self.wf(),
            self@.kind == QueryType::Select,
        ensures
            q.wf(),
            q@ == self@.with_ordering("asc"@, column@),
            q@.param_count() == self@.param_count(),
    {
        self.orderby("asc", column)
    }

    /// Orders the rows of a `select` by `column`, descending.
    pub fn orderby_desc(self, column: &str) -> (q: Query<V>)
        requires
            self.wf(),
            self@.kind == QueryType::Select,
        ensures
            q.wf(),
            q@ == self@.with_ordering("desc"@, column@),
            q@.param_count() == self@.param_count(),
    {
        self.orderby("desc", column)
    }

    /// The statement as text, with each bound value as its named placeholder.
    pub fn query_to_string(&self) -> (sql: String)
        requires
            self.wf(),
            self@.renderable(),
        ensures
            sql@ == self@.rendered(),
    {
        proof {
            lemma_clause_order(self@);
        }
        let mut sql = String::new();
        match self.query_type {
            QueryType::Select => {
                sql.append(self.select.as_str());
                sql.append(" ");
                sql.append(self.from.as_str());
                match &self.join {
                    Some(join) => {
                        sql.append(" ");
                        join.render_named(&mut sql);
                    },
                    None => {},
                }
            },
            QueryType::Update => {
                sql.append(self.update.as_str());
                match &self.set {
                    Some(set) => {
                        sql.append(" ");
                        set.render_named(&mut sql);
                    },
                    None => unreached(),
                }
            },
        }
        match &self.clause {
            Some(clause) => {
                sql.append(" ");
                clause.render_named(&mut sql);
            },
            None => {},
        }
        match &self.orderby {
            Some(orderby) => {
                sql.append(" ");
                sql.append(orderby.as_str());
            },
            None => {},
        }
        assert(sql@ =~= self@.rendered());
        sql
    }

    /// The value registered under `n`: that of the filter store or, where it
    /// has none, that of the assignment store.
    fn lookup(&self, n: usize) -> (value: &V)
        requires
            self.wf(),
            self@.filter.contains_key(n as nat) || self@.assignment.contains_key(n as nat),
        ensures
            *value == self@.value_of(n as nat),
    {
        match self.select_params.get(n) {
            Some(value) => value,
            None => match self.update_params.get(n) {
                Some(value) => value,
                None => unreached(),
            },
        }
    }

    /// Appends to `args` the values of the placeholders of `fragment`, from
    /// left to right.
    fn collect<'a>(&'a self, fragment: &Fragment, args: &mut Vec<&'a V>)
        requires
            self.wf(),
            forall|n: nat|
                numbers(fragment@).contains(n) ==> self@.filter.contains_key(n)
                    || self@.assignment.contains_key(n),
        ensures
            pointees(final(args)@) == pointees(old(args)@) + self@.values_of(numbers(fragment@)),
    {
        let mut i: usize = 0;
        proof {
            assert(fragment@.take(0) =~= Seq::<Token>::empty());
            assert(pointees(args@) =~= pointees(old(args)@) + self@.values_of(
                numbers(fragment@.take(0)),
            ));
        }
        while i < fragment.len()
            invariant
                self.wf(),
                forall|n: nat|
                    numbers(fragment@).contains(n) ==> self@.filter.contains_key(n)
                        || self@.assignment.contains_key(n),
                i <= fragment@.len(),
                pointees(args@) == pointees(old(args)@) + self@.values_of(
                    numbers(fragment@.take(i as int)),
                ),
            decreases fragment@.len() - i,
        {
            proof {
                lemma_push(fragment@.take(i as int), fragment@[i as int]);
                assert(fragment@.take(i as int).push(fragment@[i as int]) =~= fragment@.take(
                    i + 1,
                ));
            }
            let ghost before = args@;
            match fragment.param_at(i) {
                Some(n) => {
                    proof {
                        lemma_numbers_contains(fragment@, i as int);
                    }
                    let value = self.lookup(n);
                    args.push(value);
                    assert(pointees(args@) =~= pointees(before).push(self@.value_of(n as nat)));
                },
                None => {},
            }
            assert(pointees(args@) =~= pointees(old(args)@) + self@.values_of(
                numbers(fragment@.take(i + 1)),
            ));
            i += 1;
        }
        assert(fragment@.take(i as int) =~= fragment@);
    }

    /// The statement in the form a driver takes: its text with a positional
    /// marker for each placeholder, and the bound values in the order of the
    /// markers.
    pub fn bind(&self) -> (bound: (String, Vec<&V>))
        requires
            self.wf(),
            self@.renderable(),
        ensures
            bound.0@ == self@.positional_text(),
            pointees(bound.1@) == self@.arg_values(),
            bound.1@.len() == self@.param_count(),
    {
        proof {
            lemma_clause_order(self@);
            lemma_every_value_bound_once(self@);
        }
        let mut sql = String::new();
        let mut args: Vec<&V> = Vec::new();
        assert(pointees(args@) =~= Seq::<V>::empty());
        match self.query_type {
            QueryType::Select => {
                sql.append(self.select.as_str());
                sql.append(" ");
                sql.append(self.from.as_str());
                match &self.join {
                    Some(join) => {
                        sql.append(" ");
                        join.render_positional(&mut sql);
                        self.collect(join, &mut args);
                    },
                    None => {},
                }
                assert(numbers(Seq::<Token>::empty()) =~= Seq::<nat>::empty());
                assert(pointees(args@) =~= self@.values_of(self@.join_numbers()));
            },
            QueryType::Update => {
                sql.append(self.update.as_str());
                match &self.set {
                    Some(set) => {
                        sql.append(" ");
                        set.render_positional(&mut sql);
                        self.collect(set, &mut args);
                    },
                    None => unreached(),
                }
                assert(pointees(args@) =~= self@.values_of(self@.set_numbers()));
            },
        }
        let ghost first = pointees(args@);
        match &self.clause {
            Some(clause) => {
                sql.append(" ");
                clause.render_positional(&mut sql);
                self.collect(clause, &mut args);
            },
            None => {},
        }
        proof {
            assert(numbers(Seq::<Token>::empty()) =~= Seq::<nat>::empty());
            assert(pointees(args@) =~= first + self@.values_of(self@.clause_numbers()));
        }
        match &self.orderby {
            Some(orderby) => {
                sql.append(" ");
                sql.append(orderby.as_str());
            },
            None => {},
        }
        assert(sql@ =~= self@.positional_text());
        assert(pointees(args@) =~= self@.arg_values());
        (sql, args)
    }
}

} // verus!
