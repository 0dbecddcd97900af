use buildlite::{Model, Query};

/// A small deterministic generator, so that every run tries the same call
/// sequences.
struct Dice {
    state: u64,
}

impl Dice {
    fn roll(&mut self, sides: u64) -> u64 {
        self.state = self.state.wrapping_mul(6364136223846793005).wrapping_add(1442695040888963407);
        (self.state >> 33) % sides
    }
}

/// The same statement kept the simple way: fragments as text, values by
/// name, and the arguments found again by searching the rendered text for
/// each name.
struct Expected {
    select: bool,
    head: String,
    set: Option<String>,
    join: Option<String>,
    clause: Option<String>,
    orderby: Option<String>,
    values: Vec<(String, i64)>,
}

impl Expected {
    fn name(&self) -> String {
        format!(":param{}", self.values.len())
    }

    fn rendered(&self) -> String {
        let mut sql = self.head.clone();
        for part in [&self.set, &self.join, &self.clause, &self.orderby] {
            if let Some(text) = part {
                sql.push(' ');
                sql.push_str(text);
            }
        }
        sql
    }

    fn find_whole(sql: &str, name: &str) -> usize {
        for (at, _) in sql.match_indices(name) {
            let next = sql[at + name.len()..].chars().next();
            if !matches!(next, Some(c) if c.is_ascii_digit()) {
                return at;
            }
        }
        panic!("{} does not occur in {}", name, sql);
    }

    fn bound(&self) -> (String, Vec<i64>) {
        let sql = self.rendered();
        let mut found: Vec<(usize, i64)> = Vec::new();
        for (name, value) in &self.values {
            found.push((Expected::find_whole(&sql, name), *value));
        }
        found.sort();
        let mut positional = sql;
        for (name, _) in self.values.iter().rev() {
            positional = positional.replace(name.as_str(), "?");
        }
        (positional, found.into_iter().map(|(_, value)| value).collect())
    }
}

const OPS: [&str; 6] = ["=", "!=", ">", "<", ">=", "<="];
const COLUMNS: [&str; 4] = ["id", "name", "age", "score"];

fn compare(q: Query<i64>, model: &Model, other: &Model, dice: &mut Dice, select: bool, calls: u64) {
    let mut q = q;
    let mut e = Expected {
        select,
        head: if select {
            format!("select {}.* from {}.{} as {}", model.alias, model.db, model.table, model.alias)
        } else {
            format!("update {}.{}", model.db, model.table)
        },
        set: None,
        join: None,
        clause: None,
        orderby: None,
        values: Vec::new(),
    };
    let mut n: u64 = 0;
    while n < calls {
        n += 1;
        let column = COLUMNS[dice.roll(4) as usize];
        let op = dice.roll(6) as usize;
        let value = dice.roll(1000) as i64;
        match dice.roll(if e.select { 6 } else { 3 }) {
            0 => {
                let name = e.name();
                let lead = match &e.clause {
                    None => String::from("where "),
                    Some(text) => format!("{} ", text),
                };
                let target = if e.select { format!("{}.{}", other.alias, column) } else { column.to_string() };
                e.clause = Some(format!("{}{} {} {}", lead, target, OPS[op], name));
                e.values.push((name, value));
                q = match op {
                    0 => q.where_eq(other, column, value),
                    1 => q.where_ne(other, column, value),
                    2 => q.where_gt(other, column, value),
                    3 => q.where_lt(other, column, value),
                    4 => q.where_ge(other, column, value),
                    _ => q.where_le(other, column, value),
                };
            }
            1 => {
                if let Some(text) = &e.clause {
                    let word = if value % 2 == 0 { "and" } else { "or" };
                    e.clause = Some(format!("{} {}", text, word));
                    q = if value % 2 == 0 { q.and() } else { q.or() };
                }
            }
            2 => {
                if e.select {
                    let dir = if value % 2 == 0 { "asc" } else { "desc" };
                    let lead = match &e.orderby {
                        None => String::from("order by "),
                        Some(text) => format!("{}, ", text),
                    };
                    e.orderby = Some(format!("{}{}.{} {}", lead, model.alias, column, dir));
                    q = if value % 2 == 0 { q.orderby_asc(column) } else { q.orderby_desc(column) };
                } else {
                    let name = e.name();
                    let lead = match &e.set {
                        None => String::from("set "),
                        Some(text) => format!("{}, ", text),
                    };
                    e.set = Some(format!("{}{} = {}", lead, column, name));
                    e.values.push((name, value));
                    q = q.set(column, value);
                }
            }
            3 => {
                let lead = match &e.join {
                    None => String::new(),
                    Some(text) => format!("{} ", text),
                };
                let head = format!("{}join {}.{} as {} on ", lead, other.db, other.table, other.alias);
                if value % 2 == 0 {
                    e.join = Some(format!(
                        "{}{}.{} = {}.{}",
                        head, model.alias, model.primary_key, other.alias, column
                    ));
                    q = q.join(other, column);
                } else {
                    e.join = Some(format!(
                        "{}{}.{} = {}.{}",
                        head, model.alias, column, other.alias, other.primary_key
                    ));
                    q = q.join_fk(other, column);
                }
            }
            4 => {
                if let Some(text) = &e.join {
                    e.join = Some(format!("{} and", text));
                    q = q.join_and();
                }
            }
            _ => {
                if let Some(text) = &e.join {
                    let name = e.name();
                    e.join = Some(format!("{} {}.{} {} {}", text, other.alias, column, OPS[op], name));
                    e.values.push((name, value));
                    q = match (op, value % 2 == 0) {
                        (0, true) => q.join_eq(other, column, value),
                        (1, true) => q.join_ne(other, column, value),
                        (2, true) => q.join_gt(other, column, value),
                        (3, true) => q.join_lt(other, column, value),
                        (4, true) => q.join_ge(other, column, value),
                        (_, true) => q.join_le(other, column, value),
                        (0, false) => q.join_fk_eq(other, column, value),
                        (1, false) => q.join_fk_ne(other, column, value),
                        (2, false) => q.join_fk_gt(other, column, value),
                        (3, false) => q.join_fk_lt(other, column, value),
                        (4, false) => q.join_fk_ge(other, column, value),
                        (_, false) => q.join_fk_le(other, column, value),
                    };
                }
            }
        }
        assert_eq!(q.param_count(), e.values.len());
        assert_eq!(q.has_clause(), e.clause.is_some());
        assert_eq!(q.has_join(), e.join.is_some());
        assert_eq!(q.has_set(), e.set.is_some());
        if e.select || e.set.is_some() {
            assert_eq!(q.query_to_string(), e.rendered());
            let (sql, args) = q.bind();
            let args: Vec<i64> = args.into_iter().map(|value| *value).collect();
            let (expected_sql, expected_args) = e.bound();
            assert_eq!(sql, expected_sql);
            assert_eq!(args, expected_args);
        }
    }
}

#[test]
fn select_call_sequences_agree_with_text_search() {
    let users = Model::new("app", "users", "u", "id");
    let orders = Model::new("app", "orders", "o", "order_id");
    let mut dice = Dice { state: 2024 };
    let mut round: u64 = 0;
    while round < 200 {
        let calls = 1 + dice.roll(40);
        compare(Query::select(&users), &users, &orders, &mut dice, true, calls);
        round += 1;
    }
}

#[test]
fn update_call_sequences_agree_with_text_search() {
    let users = Model::new("app", "users", "u", "id");
    let mut dice = Dice { state: 7 };
    let mut round: u64 = 0;
    while round < 200 {
        let calls = 1 + dice.roll(40);
        compare(Query::update(&users), &users, &users, &mut dice, false, calls);
        round += 1;
    }
}
