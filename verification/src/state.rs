//! The builder's state as a mathematical value.
//!
//! [`QueryView`] is what a builder stands for: its statement kind, its table,
//! its fragments as tokens and its two stores as mappings. Each call of the
//! builder is a function from one such state to the next, written here, and
//! [`QueryView::valid`] is what all reachable states have in common.

use crate::fragment::{named, numbers, positional, Token};
use crate::model::ModelView;
use crate::position::well_spaced;
use vstd::prelude::*;

verus! {

/// The kind of statement that a builder assembles.
#[derive(Clone, Copy, Debug, PartialEq, Eq, Structural)]
pub enum QueryType {
    /// A statement that reads rows.
    Select,
    /// A statement that changes rows.
    Update,
}

/// Whether each number of `s` is below the next.
pub open spec fn increasing(s: Seq<nat>) -> bool {
    forall|i: int, j: int| 0 <= i < j < s.len() ==> s[i] < s[j]
}

/// The tokens of a fragment that may be absent.
pub open spec fn tokens_of(fragment: Option<Seq<Token>>) -> Seq<Token> {
    match fragment {
        Some(ts) => ts,
        None => Seq::empty(),
    }
}

/// A fragment as it enters the statement: after one space, or not at all.
pub open spec fn spaced(fragment: Option<Seq<Token>>) -> Seq<Token> {
    match fragment {
        Some(ts) => seq![Token::Text(" "@)] + ts,
        None => Seq::empty(),
    }
}

/// Plain text as it enters the statement: after one space, or not at all.
pub open spec fn spaced_text(text: Option<Seq<char>>) -> Seq<Token> {
    match text {
        Some(t) => seq![Token::Text(" "@), Token::Text(t)],
        None => Seq::empty(),
    }
}

/// The state of a builder, as a mathematical value.
pub struct QueryView<V> {
    /// The statement kind, fixed when the builder is made.
    pub kind: QueryType,
    /// The table that the builder was made for.
    pub model: ModelView,
    /// The assignment list.
    pub set: Option<Seq<Token>>,
    /// The join list.
    pub join: Option<Seq<Token>>,
    /// The predicate clause.
    pub clause: Option<Seq<Token>>,
    /// The ordering list.
    pub orderby: Option<Seq<char>>,
    /// The values bound in predicates, by placeholder number.
    pub filter: Map<nat, V>,
    /// The values bound in assignments, by placeholder number.
    pub assignment: Map<nat, V>,
}

impl<V> QueryView<V> {
    /// The builder as `select` leaves it.
    pub open spec fn new_select(model: ModelView) -> QueryView<V> {
        QueryView {
            kind: QueryType::Select,
            model,
            set: None,
            join: None,
            clause: None,
            orderby: None,
            filter: Map::empty(),
            assignment: Map::empty(),
        }
    }

    /// The builder as `update` leaves it.
    pub open spec fn new_update(model: ModelView) -> QueryView<V> {
        QueryView {
            kind: QueryType::Update,
            model,
            set: None,
            join: None,
            clause: None,
            orderby: None,
            filter: Map::empty(),
            assignment: Map::empty(),
        }
    }

    /// How many values are registered, both stores together. It is the number
    /// that the next placeholder gets.
    pub open spec fn param_count(self) -> nat {
        self.filter.dom().len() + self.assignment.dom().len()
    }

    /// The placeholder numbers of the assignment list, from left to right.
    pub open spec fn set_numbers(self) -> Seq<nat> {
        numbers(tokens_of(self.set))
    }

    /// The placeholder numbers of the join list, from left to right.
    pub open spec fn join_numbers(self) -> Seq<nat> {
        numbers(tokens_of(self.join))
    }

    /// The placeholder numbers of the predicate clause, from left to right.
    pub open spec fn clause_numbers(self) -> Seq<nat> {
        numbers(tokens_of(self.clause))
    }

    /// What holds of every builder state that the builder's calls can reach.
    ///
    /// The registered numbers are exactly those below the count, each in one
    /// store only. Each fragment holds its placeholders in growing order, each
    /// followed, if by anything, by text that begins with no digit. Each
    /// registered number stands in exactly one fragment, that of a predicate
    /// in the join list or the predicate clause and that of an assignment in
    /// the assignment list. A `select` has no assignments; an `update` has no
    /// joins and no ordering.
    pub open spec fn valid(self) -> bool {
        &&& self.filter.dom().finite()
        &&& self.assignment.dom().finite()
        &&& forall|n: nat|
            #![trigger self.filter.contains_key(n)]
            #![trigger self.assignment.contains_key(n)]
            (self.filter.contains_key(n) || self.assignment.contains_key(n)) <==> n
                < self.param_count()
        &&& forall|n: nat|
            !(#[trigger] self.filter.contains_key(n) && self.assignment.contains_key(n))
        &&& increasing(self.set_numbers())
        &&& increasing(self.join_numbers())
        &&& increasing(self.clause_numbers())
        &&& well_spaced(tokens_of(self.set))
        &&& well_spaced(tokens_of(self.join))
        &&& well_spaced(tokens_of(self.clause))
        &&& forall|n: nat|
            #![trigger self.assignment.contains_key(n)]
            #![trigger self.set_numbers().contains(n)]
            self.assignment.contains_key(n) <==> self.set_numbers().contains(n)
        &&& forall|n: nat|
            #![trigger self.filter.contains_key(n)]
            #![trigger self.join_numbers().contains(n)]
            #![trigger self.clause_numbers().contains(n)]
            self.filter.contains_key(n) <==> (self.join_numbers().contains(n)
                || self.clause_numbers().contains(n))
        &&& forall|n: nat|
            !(#[trigger] self.join_numbers().contains(n) && self.clause_numbers().contains(n))
        &&& self.kind == QueryType::Select ==> self.set is None && self.assignment
            == Map::<nat, V>::empty()
        &&& self.kind == QueryType::Update ==> self.join is None && self.orderby is None
    }

    /// The state after `set`: the assignment list grows by `<column> = ` and
    /// the next placeholder, led by `set ` where the list was absent and by
    /// `, ` where it was not, and the value enters the assignment store.
    pub open spec fn with_assignment(self, column: Seq<char>, value: V) -> QueryView<V> {
        let lead = (if self.set is None {
            "set "@
        } else {
            ", "@
        }) + column + " = "@;
        QueryView {
            set: Some(
                tokens_of(self.set).push(Token::Text(lead)).push(Token::Param(self.param_count())),
            ),
            assignment: self.assignment.insert(self.param_count(), value),
            ..self
        }
    }

    /// The state after a join on the table `other`: the join list grows by
    /// `join <db>.<table> as <alias> on <own alias>.<left> = <alias>.<right>`,
    /// after one space where the list was there before.
    pub open spec fn with_join(self, other: ModelView, left: Seq<char>, right: Seq<char>)
        -> QueryView<V> {
        let text = (if self.join is None {
            Seq::<char>::empty()
        } else {
            " "@
        }) + other.join_text() + self.model.qualified(left) + " = "@ + other.qualified(right);
        QueryView { join: Some(tokens_of(self.join).push(Token::Text(text))), ..self }
    }

    /// The state after `join_and`: the join list grows by ` and`.
    pub open spec fn with_join_and(self) -> QueryView<V> {
        QueryView { join: Some(tokens_of(self.join).push(Token::Text(" "@ + "and"@))), ..self }
    }

    /// The state after a comparison in the join list: the list grows by
    /// ` <alias>.<column> <op> ` and the next placeholder, and the value
    /// enters the filter store.
    pub open spec fn with_join_filter(
        self,
        op: Seq<char>,
        alias: Seq<char>,
        column: Seq<char>,
        value: V,
    ) -> QueryView<V> {
        let lead = " "@ + alias + "."@ + column + " "@ + op + " "@;
        QueryView {
            join: Some(
                tokens_of(self.join).push(Token::Text(lead)).push(Token::Param(self.param_count())),
            ),
            filter: self.filter.insert(self.param_count(), value),
            ..self
        }
    }

    /// The state after a comparison in the predicate clause: the clause grows
    /// by `<alias>.<column> <op> ` in a `select`, by `<column> <op> ` in an
    /// `update`, and by the next placeholder; it is led by `where ` where the
    /// clause was absent and by one space where it was not. The value enters
    /// the filter store, whatever the statement kind.
    pub open spec fn with_filter(
        self,
        op: Seq<char>,
        alias: Seq<char>,
        column: Seq<char>,
        value: V,
    ) -> QueryView<V> {
        let lead = (if self.clause is None {
            "where "@
        } else {
            " "@
        }) + (if self.kind == QueryType::Select {
            alias + "."@
        } else {
            Seq::<char>::empty()
        }) + column + " "@ + op + " "@;
        QueryView {
            clause: Some(
                tokens_of(self.clause).push(Token::Text(lead)).push(
                    Token::Param(self.param_count()),
                ),
            ),
            filter: self.filter.insert(self.param_count(), value),
            ..self
        }
    }

    /// The state after `and` or `or`: the predicate clause grows by one space
    /// and the word.
    pub open spec fn with_word(self, word: Seq<char>) -> QueryView<V> {
        QueryView { clause: Some(tokens_of(self.clause).push(Token::Text(" "@ + word))), ..self }
    }

    /// The state after an ordering call: the ordering list grows by
    /// `<own alias>.<column> <dir>`, led by `order by ` where the list was
    /// absent and by `, ` where it was not.
    pub open spec fn with_ordering(self, dir: Seq<char>, column: Seq<char>) -> QueryView<V> {
        let before = match self.orderby {
            None => "order by "@,
            Some(text) => text + ", "@,
        };
        QueryView {
            orderby: Some(before + self.model.qualified(column) + " "@ + dir),
            ..self
        }
    }

    /// Whether the statement can be rendered: an `update` needs at least one
    /// assignment.
    pub open spec fn renderable(self) -> bool {
        self.kind == QueryType::Update ==> self.set is Some
    }

    /// The whole statement as tokens, in its fixed clause order: for a
    /// `select` the select list, the table, then the joins, the predicates and
    /// the ordering, as far as they are there; for an `update` the table, the
    /// assignments, then the predicates.
    pub open spec fn statement(self) -> Seq<Token> {
        match self.kind {
            QueryType::Select => seq![
                Token::Text(self.model.select_text()),
                Token::Text(" "@),
                Token::Text(self.model.from_text()),
            ] + spaced(self.join) + spaced(self.clause) + spaced_text(self.orderby),
            QueryType::Update => seq![Token::Text(self.model.update_text())] + spaced(self.set)
                + spaced(self.clause),
        }
    }

    /// The statement's text with named placeholders.
    pub open spec fn rendered(self) -> Seq<char> {
        named(self.statement())
    }

    /// The statement's text with positional markers.
    pub open spec fn positional_text(self) -> Seq<char> {
        positional(self.statement())
    }

    /// The numbers of the statement's placeholders, from left to right.
    pub open spec fn arg_numbers(self) -> Seq<nat> {
        numbers(self.statement())
    }

    /// The value registered under `n`: that of the filter store or, where it
    /// has none, that of the assignment store.
    pub open spec fn value_of(self, n: nat) -> V {
        if self.filter.contains_key(n) {
            self.filter[n]
        } else {
            self.assignment[n]
        }
    }

    /// The values registered under the numbers `ns`, in the order of `ns`.
    pub open spec fn values_of(self, ns: Seq<nat>) -> Seq<V> {
        Seq::new(ns.len(), |k: int| self.value_of(ns[k]))
    }

    /// The values that the statement's placeholders stand for, from left to
    /// right.
    pub open spec fn arg_values(self) -> Seq<V> {
        self.values_of(self.arg_numbers())
    }
}

} // verus!
