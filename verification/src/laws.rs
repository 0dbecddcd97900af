//! What holds of the builder's states.
//!
//! The rendered text keeps the fixed clause order. The placeholder numbers
//! grow with each registration, whichever store it enters, and every call
//! of the builder leaves a valid state. The arguments agree with the text:
//! each stands for the placeholder at its place, the places follow from left
//! to right, the positional text has a marker for each name and is otherwise
//! the rendered text, and each registered value is bound exactly once.

use crate::fragment::{
    lemma_concat, lemma_push, lemma_push_numbers, lemma_single, named, numbers, positional, Token,
};
use crate::model::ModelView;
use crate::placeholder::{lemma_placeholder_name_injective, placeholder_name, positional_marker};
use crate::position::{
    colon_free, lemma_colons_are_placeholders, lemma_markers_replace_names,
    lemma_placeholder_in_text, lemma_placeholders_left_to_right, lemma_well_spaced_concat,
    lemma_whole_name_found_once, marked_from, named_offset, occurs_whole, placeholder_starts_at,
    positional_offset, starts_plain, well_spaced,
};
use crate::state::{increasing, spaced, spaced_text, tokens_of, QueryType, QueryView};
use vstd::prelude::*;
use vstd::seq_lib::lemma_no_dup_in_concat;

verus! {

/// The text of a fragment as it enters the rendered statement: after one
/// space, or not at all.
pub open spec fn spaced_named(fragment: Option<Seq<Token>>) -> Seq<char> {
    match fragment {
        Some(ts) => " "@ + named(ts),
        None => Seq::empty(),
    }
}

/// The text of a fragment as it enters the positional statement: after one
/// space, or not at all.
pub open spec fn spaced_positional(fragment: Option<Seq<Token>>) -> Seq<char> {
    match fragment {
        Some(ts) => " "@ + positional(ts),
        None => Seq::empty(),
    }
}

/// Plain text as it enters either statement: after one space, or not at all.
pub open spec fn spaced_plain(text: Option<Seq<char>>) -> Seq<char> {
    match text {
        Some(t) => " "@ + t,
        None => Seq::empty(),
    }
}

/// The three readings of a fragment as it enters the statement.
proof fn lemma_spaced(fragment: Option<Seq<Token>>)
    ensures
        named(spaced(fragment)) == spaced_named(fragment),
        positional(spaced(fragment)) == spaced_positional(fragment),
        numbers(spaced(fragment)) == numbers(tokens_of(fragment)),
{
    match fragment {
        Some(ts) => {
            let space = Token::Text(" "@);
            lemma_single(space);
            lemma_concat(seq![space], ts);
            assert(Seq::<nat>::empty() + numbers(ts) =~= numbers(ts));
        },
        None => {},
    }
}

/// The three readings of plain text as it enters the statement.
proof fn lemma_spaced_text(text: Option<Seq<char>>)
    ensures
        named(spaced_text(text)) == spaced_plain(text),
        positional(spaced_text(text)) == spaced_plain(text),
        numbers(spaced_text(text)) == Seq::<nat>::empty(),
{
    match text {
        Some(t) => {
            let space = Token::Text(" "@);
            lemma_single(space);
            lemma_push(seq![space], Token::Text(t));
            assert(seq![space].push(Token::Text(t)) =~= spaced_text(text));
            assert(Seq::<nat>::empty() + Seq::<nat>::empty() =~= Seq::<nat>::empty());
        },
        None => {},
    }
}

/// The rendered statement keeps the fixed clause order. A `select` reads: the
/// select list, the table, then the joins, the predicates and the ordering,
/// each after one space and only if it is there. An `update` reads: the
/// table, the assignments, then the predicates. The positional text has the
/// same shape, and the placeholders follow in the order of the clauses.
pub proof fn lemma_clause_order<V>(q: QueryView<V>)
    ensures
        q.kind == QueryType::Select ==> {
            &&& q.rendered() == q.model.select_text() + " "@ + q.model.from_text() + spaced_named(
                q.join,
            ) + spaced_named(q.clause) + spaced_plain(q.orderby)
            &&& q.positional_text() == q.model.select_text() + " "@ + q.model.from_text()
                + spaced_positional(q.join) + spaced_positional(q.clause) + spaced_plain(
                q.orderby,
            )
            &&& q.arg_numbers() == q.join_numbers() + q.clause_numbers()
        },
        q.kind == QueryType::Update ==> {
            &&& q.rendered() == q.model.update_text() + spaced_named(q.set) + spaced_named(
                q.clause,
            )
            &&& q.positional_text() == q.model.update_text() + spaced_positional(q.set)
                + spaced_positional(q.clause)
            &&& q.arg_numbers() == q.set_numbers() + q.clause_numbers()
        },
{
    lemma_spaced(q.set);
    lemma_spaced(q.join);
    lemma_spaced(q.clause);
    lemma_spaced_text(q.orderby);
    match q.kind {
        QueryType::Select => {
            let a = Token::Text(q.model.select_text());
            let b = Token::Text(" "@);
            let c = Token::Text(q.model.from_text());
            let head = seq![a, b, c];
            lemma_single(a);
            lemma_push(seq![a], b);
            lemma_push(seq![a, b], c);
            assert(seq![a].push(b) =~= seq![a, b]);
            assert(seq![a, b].push(c) =~= head);
            assert(numbers(head) =~= Seq::<nat>::empty());
            lemma_concat(head, spaced(q.join));
            lemma_concat(head + spaced(q.join), spaced(q.clause));
            lemma_concat(head + spaced(q.join) + spaced(q.clause), spaced_text(q.orderby));
            assert(q.arg_numbers() =~= q.join_numbers() + q.clause_numbers());
        },
        QueryType::Update => {
            let a = Token::Text(q.model.update_text());
            lemma_single(a);
            lemma_concat(seq![a], spaced(q.set));
            lemma_concat(seq![a] + spaced(q.set), spaced(q.clause));
            assert(q.arg_numbers() =~= q.set_numbers() + q.clause_numbers());
        },
    }
}

/// The numbers of a list that grew by `n` are those of the list, and `n`.
proof fn lemma_push_contains(s: Seq<nat>, n: nat)
    ensures
        forall|m: nat| #[trigger] s.push(n).contains(m) <==> s.contains(m) || m == n,
{
    assert forall|m: nat| #[trigger] s.push(n).contains(m) implies s.contains(m) || m == n by {
        let i = choose|i: int| 0 <= i < s.push(n).len() && s.push(n)[i] == m;
        if i < s.len() {
            assert(s[i] == m);
        }
    }
    assert forall|m: nat| s.contains(m) || m == n implies #[trigger] s.push(n).contains(m) by {
        if s.contains(m) {
            let i = choose|i: int| 0 <= i < s.len() && s[i] == m;
            assert(s.push(n)[i] == m);
        } else {
            assert(s.push(n)[s.len() as int] == m);
        }
    }
}

/// A growing list that takes a number above all of its own still grows.
proof fn lemma_push_increasing(s: Seq<nat>, n: nat)
    requires
        increasing(s),
        forall|m: nat| s.contains(m) ==> m < n,
    ensures
        increasing(s.push(n)),
{
    assert forall|i: int, j: int| 0 <= i < j < s.push(n).len() implies s.push(n)[i] < s.push(
        n,
    )[j] by {
        assert(s.contains(s[i]));
    }
}

/// Text that begins with a space or a comma, and the same text followed by a
/// placeholder, keep a well-spaced sequence well spaced. So does any text
/// after no token at all.
proof fn lemma_push_well_spaced(ts: Seq<Token>, text: Seq<char>, n: nat)
    requires
        well_spaced(ts),
        ts.len() == 0 || (text.len() > 0 && (text[0] == ' ' || text[0] == ',')),
    ensures
        well_spaced(ts.push(Token::Text(text))),
        well_spaced(ts.push(Token::Text(text)).push(Token::Param(n))),
{
    let a = ts.push(Token::Text(text));
    assert forall|i: int| 0 < i < a.len() && a[i - 1] is Param implies #[trigger] starts_plain(
        a[i],
    ) by {
        if i < ts.len() {
            assert(starts_plain(ts[i]));
        }
    }
    let b = a.push(Token::Param(n));
    assert forall|i: int| 0 < i < b.len() && b[i - 1] is Param implies #[trigger] starts_plain(
        b[i],
    ) by {
        if i < a.len() {
            assert(starts_plain(a[i]));
        }
    }
}

/// The statement of a valid state is well spaced.
proof fn lemma_statement_well_spaced<V>(q: QueryView<V>)
    requires
        q.valid(),
    ensures
        well_spaced(q.statement()),
{
    reveal_strlit(" ");
    let space = Token::Text(" "@);
    assert(starts_plain(space));
    assert(well_spaced(seq![space]));
    assert(well_spaced(Seq::<Token>::empty()));
    if q.set is Some {
        lemma_well_spaced_concat(seq![space], tokens_of(q.set));
    }
    if q.join is Some {
        lemma_well_spaced_concat(seq![space], tokens_of(q.join));
    }
    if q.clause is Some {
        lemma_well_spaced_concat(seq![space], tokens_of(q.clause));
    }
    assert(well_spaced(spaced_text(q.orderby)));
    match q.kind {
        QueryType::Select => {
            let head = seq![
                Token::Text(q.model.select_text()),
                Token::Text(" "@),
                Token::Text(q.model.from_text()),
            ];
            assert(well_spaced(head));
            lemma_well_spaced_concat(head, spaced(q.join));
            lemma_well_spaced_concat(head + spaced(q.join), spaced(q.clause));
            lemma_well_spaced_concat(
                head + spaced(q.join) + spaced(q.clause),
                spaced_text(q.orderby),
            );
        },
        QueryType::Update => {
            let head = seq![Token::Text(q.model.update_text())];
            assert(well_spaced(head));
            lemma_well_spaced_concat(head, spaced(q.set));
            lemma_well_spaced_concat(head + spaced(q.set), spaced(q.clause));
        },
    }
}

/// The next placeholder number is free: every registered number, of either
/// store, is below the count, so no value is registered under the count.
pub proof fn lemma_next_number_is_free<V>(q: QueryView<V>)
    requires
        q.valid(),
    ensures
        !q.filter.contains_key(q.param_count()),
        !q.assignment.contains_key(q.param_count()),
        forall|n: nat|
            q.filter.contains_key(n) || q.assignment.contains_key(n) ==> n < q.param_count(),
{
}

/// Placeholder names grow across both stores together: the placeholder that
/// the next value gets, whichever store it enters, has a number above that of
/// every value registered so far, and a name that none of them has.
pub proof fn lemma_next_placeholder_is_new<V>(q: QueryView<V>, n: nat)
    requires
        q.valid(),
        q.filter.contains_key(n) || q.assignment.contains_key(n),
    ensures
        n < q.param_count(),
        placeholder_name(n) != placeholder_name(q.param_count()),
{
    if placeholder_name(n) == placeholder_name(q.param_count()) {
        lemma_placeholder_name_injective(n, q.param_count());
    }
}

/// A value is registered under the count, whichever store it enters: after a
/// comparison in the predicate clause or in the join list the filter store
/// holds the value under the count of before, after an assignment the
/// assignment store does, and the placeholder stands last in the fragment
/// that the call wrote to. The other store and the other fragments are as
/// they were.
pub proof fn lemma_registered_under_count<V>(
    q: QueryView<V>,
    op: Seq<char>,
    alias: Seq<char>,
    column: Seq<char>,
    value: V,
)
    ensures
        q.with_filter(op, alias, column, value).filter == q.filter.insert(q.param_count(), value),
        q.with_filter(op, alias, column, value).assignment == q.assignment,
        q.with_filter(op, alias, column, value).clause_numbers() == q.clause_numbers().push(
            q.param_count(),
        ),
        q.with_filter(op, alias, column, value).join == q.join,
        q.with_filter(op, alias, column, value).set == q.set,
        q.with_join_filter(op, alias, column, value).filter == q.filter.insert(
            q.param_count(),
            value,
        ),
        q.with_join_filter(op, alias, column, value).assignment == q.assignment,
        q.with_join_filter(op, alias, column, value).join_numbers() == q.join_numbers().push(
            q.param_count(),
        ),
        q.with_join_filter(op, alias, column, value).clause == q.clause,
        q.with_join_filter(op, alias, column, value).set == q.set,
        q.with_assignment(column, value).assignment == q.assignment.insert(
            q.param_count(),
            value,
        ),
        q.with_assignment(column, value).filter == q.filter,
        q.with_assignment(column, value).set_numbers() == q.set_numbers().push(q.param_count()),
        q.with_assignment(column, value).join == q.join,
        q.with_assignment(column, value).clause == q.clause,
{
    let n = q.param_count();
    let where_lead = (if q.clause is None {
        "where "@
    } else {
        " "@
    }) + (if q.kind == QueryType::Select {
        alias + "."@
    } else {
        Seq::<char>::empty()
    }) + column + " "@ + op + " "@;
    lemma_push_numbers(tokens_of(q.clause), where_lead, n);
    lemma_push_numbers(tokens_of(q.join), " "@ + alias + "."@ + column + " "@ + op + " "@, n);
    let set_lead = (if q.set is None {
        "set "@
    } else {
        ", "@
    }) + column + " = "@;
    lemma_push_numbers(tokens_of(q.set), set_lead, n);
}

/// The states that `select` and `update` leave are valid and hold no value.
pub proof fn lemma_new<V>(model: ModelView)
    ensures
        QueryView::<V>::new_select(model).valid(),
        QueryView::<V>::new_select(model).param_count() == 0,
        QueryView::<V>::new_update(model).valid(),
        QueryView::<V>::new_update(model).param_count() == 0,
{
    assert(numbers(Seq::<Token>::empty()) =~= Seq::<nat>::empty());
}

/// A comparison in the predicate clause leaves a valid state, and the count
/// one higher.
pub proof fn lemma_with_filter<V>(
    q: QueryView<V>,
    op: Seq<char>,
    alias: Seq<char>,
    column: Seq<char>,
    value: V,
)
    requires
        q.valid(),
    ensures
        q.with_filter(op, alias, column, value).valid(),
        q.with_filter(op, alias, column, value).param_count() == q.param_count() + 1,
{
    let r = q.with_filter(op, alias, column, value);
    let n = q.param_count();
    let lead = (if q.clause is None {
        "where "@
    } else {
        " "@
    }) + (if q.kind == QueryType::Select {
        alias + "."@
    } else {
        Seq::<char>::empty()
    }) + column + " "@ + op + " "@;
    lemma_next_number_is_free(q);
    lemma_push_numbers(tokens_of(q.clause), lead, n);
    reveal_strlit(" ");
    lemma_push_well_spaced(tokens_of(q.clause), lead, n);
    assert(r.clause_numbers() == q.clause_numbers().push(n));
    lemma_push_contains(q.clause_numbers(), n);
    lemma_push_increasing(q.clause_numbers(), n);
    assert(r.filter.dom() =~= q.filter.dom().insert(n));
    assert(r.param_count() == n + 1);
}

/// A comparison in the join list of a `select` leaves a valid state, and the
/// count one higher.
pub proof fn lemma_with_join_filter<V>(
    q: QueryView<V>,
    op: Seq<char>,
    alias: Seq<char>,
    column: Seq<char>,
    value: V,
)
    requires
        q.valid(),
        q.kind == QueryType::Select,
    ensures
        q.with_join_filter(op, alias, column, value).valid(),
        q.with_join_filter(op, alias, column, value).param_count() == q.param_count() + 1,
{
    let r = q.with_join_filter(op, alias, column, value);
    let n = q.param_count();
    let lead = " "@ + alias + "."@ + column + " "@ + op + " "@;
    lemma_next_number_is_free(q);
    lemma_push_numbers(tokens_of(q.join), lead, n);
    reveal_strlit(" ");
    lemma_push_well_spaced(tokens_of(q.join), lead, n);
    assert(r.join_numbers() == q.join_numbers().push(n));
    lemma_push_contains(q.join_numbers(), n);
    lemma_push_increasing(q.join_numbers(), n);
    assert(r.filter.dom() =~= q.filter.dom().insert(n));
    assert(r.param_count() == n + 1);
}

/// An assignment in an `update` leaves a valid state, and the count one
/// higher.
pub proof fn lemma_with_assignment<V>(q: QueryView<V>, column: Seq<char>, value: V)
    requires
        q.valid(),
        q.kind == QueryType::Update,
    ensures
        q.with_assignment(column, value).valid(),
        q.with_assignment(column, value).param_count() == q.param_count() + 1,
{
    let r = q.with_assignment(column, value);
    let n = q.param_count();
    let lead = (if q.set is None {
        "set "@
    } else {
        ", "@
    }) + column + " = "@;
    lemma_next_number_is_free(q);
    lemma_push_numbers(tokens_of(q.set), lead, n);
    reveal_strlit(", ");
    lemma_push_well_spaced(tokens_of(q.set), lead, n);
    assert(r.set_numbers() == q.set_numbers().push(n));
    lemma_push_contains(q.set_numbers(), n);
    lemma_push_increasing(q.set_numbers(), n);
    assert(r.assignment.dom() =~= q.assignment.dom().insert(n));
    assert(r.param_count() == n + 1);
}

/// A join in a `select` leaves a valid state and the count as it was.
pub proof fn lemma_with_join<V>(
    q: QueryView<V>,
    other: ModelView,
    left: Seq<char>,
    right: Seq<char>,
)
    requires
        q.valid(),
        q.kind == QueryType::Select,
    ensures
        q.with_join(other, left, right).valid(),
        q.with_join(other, left, right).param_count() == q.param_count(),
{
    let text = (if q.join is None {
        Seq::<char>::empty()
    } else {
        " "@
    }) + other.join_text() + q.model.qualified(left) + " = "@ + other.qualified(right);
    lemma_push_numbers(tokens_of(q.join), text, 0);
    reveal_strlit(" ");
    lemma_push_well_spaced(tokens_of(q.join), text, 0);
}

/// `and` in the join list of a `select` leaves a valid state and the count
/// as it was.
pub proof fn lemma_with_join_and<V>(q: QueryView<V>)
    requires
        q.valid(),
        q.kind == QueryType::Select,
    ensures
        q.with_join_and().valid(),
        q.with_join_and().param_count() == q.param_count(),
{
    lemma_push_numbers(tokens_of(q.join), " "@ + "and"@, 0);
    reveal_strlit(" ");
    lemma_push_well_spaced(tokens_of(q.join), " "@ + "and"@, 0);
}

/// A word in the predicate clause leaves a valid state and the count as it
/// was.
pub proof fn lemma_with_word<V>(q: QueryView<V>, word: Seq<char>)
    requires
        q.valid(),
    ensures
        q.with_word(word).valid(),
        q.with_word(word).param_count() == q.param_count(),
{
    lemma_push_numbers(tokens_of(q.clause), " "@ + word, 0);
    reveal_strlit(" ");
    lemma_push_well_spaced(tokens_of(q.clause), " "@ + word, 0);
}

/// An ordering in a `select` leaves a valid state and the count as it was.
pub proof fn lemma_with_ordering<V>(q: QueryView<V>, dir: Seq<char>, column: Seq<char>)
    requires
        q.valid(),
        q.kind == QueryType::Select,
    ensures
        q.with_ordering(dir, column).valid(),
        q.with_ordering(dir, column).param_count() == q.param_count(),
{
}

/// Each argument stands where the text says. The `k`th argument is the value
/// registered under the number of the `k`th placeholder of the statement;
/// the rendered text holds that placeholder's name at its offset, and the
/// positional text holds the marker at the matching offset.
pub proof fn lemma_arg_in_text<V>(q: QueryView<V>, k: int)
    requires
        q.valid(),
        0 <= k < q.arg_values().len(),
    ensures
        q.filter.contains_key(q.arg_numbers()[k]) || q.assignment.contains_key(
            q.arg_numbers()[k],
        ),
        q.arg_values()[k] == q.value_of(q.arg_numbers()[k]),
        q.rendered().subrange(
            named_offset(q.statement(), k),
            named_offset(q.statement(), k) + placeholder_name(q.arg_numbers()[k]).len(),
        ) == placeholder_name(q.arg_numbers()[k]),
        q.positional_text().subrange(
            positional_offset(q.statement(), k),
            positional_offset(q.statement(), k) + positional_marker().len(),
        ) == positional_marker(),
{
    lemma_placeholder_in_text(q.statement(), k);
    lemma_clause_order(q);
    let n = q.arg_numbers()[k];
    let (first, second) = match q.kind {
        QueryType::Select => (q.join_numbers(), q.clause_numbers()),
        QueryType::Update => (q.set_numbers(), q.clause_numbers()),
    };
    assert(q.arg_numbers() == first + second);
    if k < first.len() {
        assert(first[k] == n);
        assert(first.contains(n));
    } else {
        assert(second[k - first.len()] == n);
        assert(second.contains(n));
    }
}

/// The arguments follow the text from left to right: of two arguments, the
/// placeholder of the earlier one ends in the rendered text before that of
/// the later one starts, and so do their markers in the positional text,
/// whatever the order in which the calls were chained.
pub proof fn lemma_args_left_to_right<V>(q: QueryView<V>, j: int, k: int)
    requires
        0 <= j < k < q.arg_values().len(),
    ensures
        named_offset(q.statement(), j) + placeholder_name(q.arg_numbers()[j]).len()
            <= named_offset(q.statement(), k),
        positional_offset(q.statement(), j) + positional_marker().len() <= positional_offset(
            q.statement(),
            k,
        ),
{
    lemma_placeholders_left_to_right(q.statement(), j, k);
}

/// The placeholders can be told from the text alone: where no text of the
/// statement holds a colon, a colon stands in the rendered text exactly where
/// the placeholder of an argument starts. Read from left to right, the colons
/// thus give the arguments in their order.
pub proof fn lemma_colons_mark_args<V>(q: QueryView<V>, p: int)
    requires
        colon_free(q.statement()),
        0 <= p < q.rendered().len(),
    ensures
        q.rendered()[p] == ':' <==> exists|k: int|
            0 <= k < q.arg_values().len() && named_offset(q.statement(), k) == p,
{
    lemma_colons_are_placeholders(q.statement(), p);
    if placeholder_starts_at(q.statement(), p) {
        let k = choose|k: int|
            0 <= k < numbers(q.statement()).len() && named_offset(q.statement(), k) == p;
        assert(0 <= k < q.arg_values().len() && named_offset(q.statement(), k) == p);
    }
}

/// Searching the rendered text finds the arguments: where no text of the
/// statement holds a colon, the name of the `k`th argument's placeholder
/// stands whole in the rendered text, with no digit after it, at one place
/// only, and that place is its offset. To look each registered name up in
/// the text and to sort the names by where they were found thus gives the
/// arguments in the order in which they are bound.
pub proof fn lemma_search_finds_arg<V>(q: QueryView<V>, k: int, p: int)
    requires
        q.valid(),
        colon_free(q.statement()),
        0 <= k < q.arg_values().len(),
    ensures
        occurs_whole(q.rendered(), placeholder_name(q.arg_numbers()[k]), p) <==> p
            == named_offset(q.statement(), k),
{
    lemma_statement_well_spaced(q);
    lemma_every_value_bound_once(q);
    lemma_whole_name_found_once(q.statement(), k, p);
}

/// The positional text is the rendered text with the placeholders replaced:
/// each placeholder's name is replaced whole, at its offset, by the marker,
/// and the text around the placeholders stays as it is. A name that is the
/// beginning of another one is thus never mistaken for it.
pub proof fn lemma_positional_text<V>(q: QueryView<V>)
    ensures
        q.positional_text() == marked_from(q.statement(), 0),
{
    lemma_markers_replace_names(q.statement());
}

/// Every registered value is bound exactly once: the statement's
/// placeholders are the registered numbers, none of them twice, so there are
/// as many arguments as registered values.
pub proof fn lemma_every_value_bound_once<V>(q: QueryView<V>)
    requires
        q.valid(),
    ensures
        q.arg_numbers().no_duplicates(),
        forall|n: nat|
            q.arg_numbers().contains(n) <==> q.filter.contains_key(n) || q.assignment.contains_key(
                n,
            ),
        q.arg_values().len() == q.param_count(),
{
    lemma_clause_order(q);
    let (first, second) = match q.kind {
        QueryType::Select => (q.join_numbers(), q.clause_numbers()),
        QueryType::Update => (q.set_numbers(), q.clause_numbers()),
    };
    let all = first + second;
    assert(q.arg_numbers() == all);
    assert(numbers(Seq::<Token>::empty()) =~= Seq::<nat>::empty());
    assert forall|i: int, j: int| 0 <= i < first.len() && 0 <= j < second.len() implies first[i]
        != second[j] by {
        assert(first.contains(first[i]));
        assert(second.contains(second[j]));
    }
    lemma_no_dup_in_concat(first, second);
    assert forall|n: nat| all.contains(n) <==> q.filter.contains_key(n)
        || q.assignment.contains_key(n) by {
        if all.contains(n) {
            let i = choose|i: int| 0 <= i < all.len() && all[i] == n;
            if i < first.len() {
                assert(first[i] == n);
                assert(first.contains(n));
            } else {
                assert(second[i - first.len()] == n);
                assert(second.contains(n));
            }
        }
        if first.contains(n) {
            let i = choose|i: int| 0 <= i < first.len() && first[i] == n;
            assert(all[i] == n);
        }
        if second.contains(n) {
            let i = choose|i: int| 0 <= i < second.len() && second[i] == n;
            assert(all[first.len() + i] == n);
        }
    }
    all.unique_seq_to_set();
    assert(all.to_set() =~= q.filter.dom() + q.assignment.dom());
    vstd::set_lib::lemma_set_disjoint_lens(q.filter.dom(), q.assignment.dom());
}

} // verus!
