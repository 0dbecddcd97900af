use buildlite::{BuildliteError, Model, Query};
use rusqlite::{params_from_iter, Connection, Row, ToSql};

struct Item {
    id: i64,
    name: String,
}

impl Item {
    const ID: &'static str = "Id";
    const NAME: &'static str = "Name";

    fn model() -> Model {
        Model::new("BuildliteDb", "Item", "item", Item::ID)
    }

    fn from_row(row: &Row) -> Result<Item, rusqlite::Error> {
        Ok(Item { id: row.get(0)?, name: row.get(1)? })
    }

    fn get_id(&self) -> i64 {
        self.id
    }

    fn get_name(&self) -> String {
        self.name.clone()
    }
}

struct Secondary {
    id: i64,
    item_id: i64,
    name: String,
}

impl Secondary {
    const ID: &'static str = "Id";
    const ITEM_ID: &'static str = "Item_Id";
    const NAME: &'static str = "Name";

    fn model() -> Model {
        Model::new("BuildliteDb", "Secondary", "secondary", Secondary::ID)
    }

    fn from_row(row: &Row) -> Result<Secondary, rusqlite::Error> {
        Ok(Secondary { id: row.get(0)?, item_id: row.get(1)?, name: row.get(2)? })
    }

    fn get_id(&self) -> i64 {
        self.id
    }

    fn get_fk_value(&self) -> i64 {
        self.item_id
    }

    fn get_name(&self) -> String {
        self.name.clone()
    }
}

fn get_db_ctx() -> Connection {
    let db = Connection::open_in_memory().unwrap();
    db.execute("attach database ':memory:' as BuildliteDb", ()).unwrap();
    db
}

fn migrate_up(db: &Connection) {
    db.execute_batch(
        "create table BuildliteDb.Item (
            Id integer primary key autoincrement,
            Name text not null
        );
        create table BuildliteDb.Secondary (
            Id integer primary key autoincrement,
            Item_Id integer not null references Item (Id),
            Name text not null
        );",
    )
    .unwrap();
}

fn migrate_down(db: &Connection) {
    db.execute_batch(
        "drop table BuildliteDb.Secondary;
        drop table BuildliteDb.Item;",
    )
    .unwrap();
}

fn table_count(db: &Connection) -> i64 {
    db.query_row("select count(*) from BuildliteDb.sqlite_master where type = 'table' and name in ('Item', 'Secondary')", (), |row| row.get(0))
        .unwrap()
}

fn query_items(db: &Connection, sql: &str, args: Vec<&&dyn ToSql>) -> Result<Vec<Item>, rusqlite::Error> {
    let mut stmt = db.prepare(sql)?;
    let mut rows = stmt.query(params_from_iter(args))?;
    let mut objs = Vec::new();
    while let Some(row) = rows.next()? {
        objs.push(Item::from_row(row)?);
    }
    Ok(objs)
}

fn query_secondaries(
    db: &Connection,
    sql: &str,
    args: Vec<&&dyn ToSql>,
) -> Result<Vec<Secondary>, rusqlite::Error> {
    let mut stmt = db.prepare(sql)?;
    let mut rows = stmt.query(params_from_iter(args))?;
    let mut objs = Vec::new();
    while let Some(row) = rows.next()? {
        objs.push(Secondary::from_row(row)?);
    }
    Ok(objs)
}

fn run_update(db: &Connection, sql: &str, args: Vec<&&dyn ToSql>) -> Result<usize, rusqlite::Error> {
    db.execute(sql, params_from_iter(args))
}

#[test]
fn migrations() {
    let db = get_db_ctx();
    migrate_up(&db);
    assert_eq!(table_count(&db), 2);
    migrate_down(&db);
    assert_eq!(table_count(&db), 0);
}

const PRIMARY_NAME: &'static str = "Hello";

fn new_item(db: &Connection) -> Item {
    let name = PRIMARY_NAME;
    let i_res = db.execute("insert into BuildliteDb.Item (Name) values (?)", (name,));
    assert!(i_res.is_ok());
    let id = db.last_insert_rowid();
    let found = Query::<&dyn ToSql>::select(&Item::model())
        .where_eq(&Item::model(), Item::ID, &id)
        .execute(|sql, args| query_items(db, sql, args));
    assert!(found.is_ok());
    let mut found = found.unwrap();
    assert_eq!(found.len(), 1);
    let i = found.remove(0);
    assert_eq!(i.get_id(), id);
    assert_eq!(i.get_name(), name);
    return i;
}

#[test]
fn insert_item() {
    let db = get_db_ctx();
    migrate_up(&db);
    new_item(&db);
    migrate_down(&db);
}

fn select_from_item(db: &Connection) -> Item {
    let p = new_item(db);
    let q_res = Query::<&dyn ToSql>::select(&Item::model())
        .where_eq(&Item::model(), Item::NAME, &PRIMARY_NAME)
        .execute_row(|sql, args| query_items(db, sql, args));
    assert!(q_res.is_ok());
    let q = q_res.unwrap();
    assert_eq!(p.get_id(), q.get_id());
    assert_eq!(p.get_name(), q.get_name());
    return q;
}

#[test]
fn select_item() {
    let db = get_db_ctx();
    migrate_up(&db);
    select_from_item(&db);
    migrate_down(&db);
}

const SECONDARY_NAME: &'static str = "World";

fn new_secondary(db: &Connection, p: &Item) -> Secondary {
    let s_res = db.execute(
        "insert into BuildliteDb.Secondary (Item_Id, Name) values (?, ?)",
        (p.get_id(), SECONDARY_NAME),
    );
    assert!(s_res.is_ok());
    let id = db.last_insert_rowid();
    let found = Query::<&dyn ToSql>::select(&Secondary::model())
        .where_eq(&Secondary::model(), Secondary::ID, &id)
        .execute(|sql, args| query_secondaries(db, sql, args));
    assert!(found.is_ok());
    let mut found = found.unwrap();
    assert_eq!(found.len(), 1);
    let s = found.remove(0);
    assert_eq!(s.get_name(), SECONDARY_NAME);
    assert_eq!(s.get_fk_value(), p.get_id());
    return s;
}

#[test]
fn insert_secondary() {
    let db = get_db_ctx();
    migrate_up(&db);
    let p = new_item(&db);
    new_secondary(&db, &p);
    migrate_down(&db);
}

fn select_from_secondary(db: &Connection, p: &Item) -> Secondary {
    let q_res = Query::<&dyn ToSql>::select(&Secondary::model())
        .where_eq(&Secondary::model(), Secondary::NAME, &SECONDARY_NAME)
        .execute_row(|sql, args| query_secondaries(db, sql, args));
    assert!(q_res.is_ok());
    let q = q_res.unwrap();
    assert_eq!(q.get_name(), SECONDARY_NAME);
    assert_eq!(q.get_fk_value(), p.get_id());
    return q;
}

#[test]
fn select_secondary() {
    let db = get_db_ctx();
    migrate_up(&db);
    let p = new_item(&db);
    new_secondary(&db, &p);
    select_from_secondary(&db, &p);
    migrate_down(&db);
}

fn join_on_secondary(db: &Connection, p: &Item, s: &Secondary) -> Secondary {
    let pid = p.get_id();
    let q_res = Query::<&dyn ToSql>::select(&Secondary::model())
        .join_fk(&Item::model(), Secondary::ITEM_ID)
        .join_and()
        .join_fk_eq(&Item::model(), Item::ID, &pid)
        .execute_row(|sql, args| query_secondaries(db, sql, args));
    assert!(q_res.is_ok());
    let q = q_res.unwrap();
    assert_eq!(q.get_id(), s.get_id());
    assert_eq!(q.get_fk_value(), p.get_id());
    assert_eq!(q.get_name(), s.get_name());
    return q;
}

#[test]
fn join_secondary() {
    let db = get_db_ctx();
    migrate_up(&db);
    let p = new_item(&db);
    new_secondary(&db, &p);
    let s = select_from_secondary(&db, &p);
    join_on_secondary(&db, &p, &s);
    migrate_down(&db);
}

fn join_on_item(db: &Connection, p: &Item, s: &Secondary) -> Item {
    let q_res = Query::<&dyn ToSql>::select(&Item::model())
        .join(&Secondary::model(), Secondary::ITEM_ID)
        .join_and()
        .join_eq(&Secondary::model(), Secondary::ID, &s.get_id())
        .execute_row(|sql, args| query_items(db, sql, args));
    assert!(q_res.is_ok());
    let q = q_res.unwrap();
    assert_eq!(q.get_id(), p.get_id());
    assert_eq!(q.get_name(), p.get_name());
    return q;
}

#[test]
fn join_item() {
    let db = get_db_ctx();
    migrate_up(&db);
    let p = new_item(&db);
    new_secondary(&db, &p);
    let s = select_from_secondary(&db, &p);
    join_on_item(&db, &p, &s);
    migrate_down(&db);
}

#[test]
fn execute_row_without_rows_is_no_rows_error() {
    let db = get_db_ctx();
    migrate_up(&db);
    new_item(&db);
    let q_res = Query::<&dyn ToSql>::select(&Item::model())
        .where_eq(&Item::model(), Item::NAME, &"Nobody")
        .execute_row(|sql, args| query_items(&db, sql, args));
    assert!(matches!(q_res, Err(BuildliteError::NoRowsError)));
    migrate_down(&db);
}

#[test]
fn execute_row_with_several_rows_is_the_first() {
    let db = get_db_ctx();
    migrate_up(&db);
    let first = new_item(&db);
    let second = new_item(&db);
    assert!(first.get_id() < second.get_id());
    let all = Query::<&dyn ToSql>::select(&Item::model())
        .where_eq(&Item::model(), Item::NAME, &PRIMARY_NAME)
        .orderby_asc(Item::ID)
        .execute(|sql, args| query_items(&db, sql, args))
        .unwrap();
    assert_eq!(all.len(), 2);
    let q = Query::<&dyn ToSql>::select(&Item::model())
        .where_eq(&Item::model(), Item::NAME, &PRIMARY_NAME)
        .orderby_asc(Item::ID)
        .execute_row(|sql, args| query_items(&db, sql, args))
        .unwrap();
    assert_eq!(q.get_id(), first.get_id());
    let q = Query::<&dyn ToSql>::select(&Item::model())
        .where_eq(&Item::model(), Item::NAME, &PRIMARY_NAME)
        .orderby_desc(Item::ID)
        .execute_row(|sql, args| query_items(&db, sql, args))
        .unwrap();
    assert_eq!(q.get_id(), second.get_id());
    migrate_down(&db);
}

#[test]
fn driver_error_is_wrapped() {
    let db = get_db_ctx();
    let q_res = Query::<&dyn ToSql>::select(&Item::model())
        .where_eq(&Item::model(), Item::NAME, &PRIMARY_NAME)
        .execute(|sql, args| query_items(&db, sql, args));
    assert!(matches!(q_res, Err(BuildliteError::SQLError(_))));
    let u_res = Query::<&dyn ToSql>::update(&Item::model())
        .set(Item::NAME, &"Goodbye")
        .execute_update(|sql, args| run_update(&db, sql, args));
    assert!(matches!(u_res, Err(BuildliteError::SQLError(_))));
}

#[test]
fn update_binds_in_textual_order() {
    let db = get_db_ctx();
    migrate_up(&db);
    let p = new_item(&db);
    let s = new_secondary(&db, &p);
    let other = new_item(&db);
    let q = Query::<&dyn ToSql>::update(&Secondary::model())
        .set(Secondary::NAME, &"Changed")
        .set(Secondary::ITEM_ID, &other.id)
        .where_eq(&Secondary::model(), Secondary::ID, &s.id);
    assert_eq!(
        q.query_to_string(),
        "update BuildliteDb.Secondary set Name = :param0, Item_Id = :param1 where Id = :param2"
    );
    let changed = q.execute_update(|sql, args| {
        assert_eq!(sql, "update BuildliteDb.Secondary set Name = ?, Item_Id = ? where Id = ?");
        assert_eq!(args.len(), 3);
        run_update(&db, sql, args)
    });
    assert_eq!(changed.unwrap(), 1);
    let after = Query::<&dyn ToSql>::select(&Secondary::model())
        .where_eq(&Secondary::model(), Secondary::ID, &s.id)
        .execute_row(|sql, args| query_secondaries(&db, sql, args))
        .unwrap();
    assert_eq!(after.get_name(), "Changed");
    assert_eq!(after.get_fk_value(), other.get_id());
    migrate_down(&db);
}

#[test]
fn filters_chained_before_joins_bind_in_textual_order() {
    let db = get_db_ctx();
    migrate_up(&db);
    let p = new_item(&db);
    let s = new_secondary(&db, &p);
    let q = Query::<&dyn ToSql>::select(&Item::model())
        .where_eq(&Item::model(), Item::NAME, &PRIMARY_NAME)
        .join(&Secondary::model(), Secondary::ITEM_ID)
        .join_and()
        .join_eq(&Secondary::model(), Secondary::ID, &s.id);
    assert_eq!(
        q.query_to_string(),
        "select item.* from BuildliteDb.Item as item join BuildliteDb.Secondary as secondary on item.Id = secondary.Item_Id and secondary.Id = :param1 where item.Name = :param0"
    );
    let found = q
        .execute_row(|sql, args| {
            assert_eq!(
                sql,
                "select item.* from BuildliteDb.Item as item join BuildliteDb.Secondary as secondary on item.Id = secondary.Item_Id and secondary.Id = ? where item.Name = ?"
            );
            query_items(&db, sql, args)
        })
        .unwrap();
    assert_eq!(found.get_id(), p.get_id());
    migrate_down(&db);
}
