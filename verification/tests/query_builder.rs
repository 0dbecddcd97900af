use buildlite::{Model, Query};
use rusqlite::ToSql;

fn test_table() -> Model {
    Model::new("TestDb", "TestTable", "testtable", "Id")
}

fn another_table() -> Model {
    Model::new("TestDb", "AnotherTable", "anothertable", "Id")
}

const TEST_ID: &str = "Id";
const TEST_ACTIVE: &str = "Active";
const ANOTHER_TEST_ID: &str = "Test_Id";
const ANOTHER_NAME: &str = "Name";
const ANOTHER_ACTIVE: &str = "Active";

#[test]
fn test_select() {
    let t = test_table();
    let q = Query::<&dyn ToSql>::select(&t)
        .where_eq(&t, TEST_ID, &1)
        .and()
        .where_gt(&t, TEST_ACTIVE, &0);
    let test_against = format!(
        "select testtable.* from TestDb.TestTable as testtable where testtable.Id = :param0 and testtable.Active > :param1"
    );
    assert_eq!(q.query_to_string(), test_against);
}

#[test]
fn test_join() {
    let t = test_table();
    let a = another_table();
    let q = Query::<&dyn ToSql>::select(&t)
        .join(&a, ANOTHER_TEST_ID)
        .join_and()
        .join_eq(&a, ANOTHER_ACTIVE, &1)
        .where_eq(&t, TEST_ID, &1);
    let test_against = format!(
        "select testtable.* from TestDb.TestTable as testtable join TestDb.AnotherTable as anothertable on testtable.Id = anothertable.Test_Id and anothertable.Active = :param0 where testtable.Id = :param1"
    );
    assert_eq!(q.query_to_string(), test_against);
}

#[test]
fn test_join_fk() {
    let t = test_table();
    let a = another_table();
    let q = Query::<&dyn ToSql>::select(&a)
        .join_fk(&t, ANOTHER_TEST_ID)
        .join_and()
        .join_fk_eq(&t, TEST_ID, &1)
        .where_eq(&a, ANOTHER_ACTIVE, &1);
    let test_against = format!(
        "select anothertable.* from TestDb.AnotherTable as anothertable join TestDb.TestTable as testtable on anothertable.Test_Id = testtable.Id and testtable.Id = :param0 where anothertable.Active = :param1"
    );
    assert_eq!(q.query_to_string(), test_against);
}

#[test]
fn test_orderby_asc() {
    let a = another_table();
    let q = Query::<&dyn ToSql>::select(&a)
        .orderby_desc(ANOTHER_NAME)
        .where_eq(&a, ANOTHER_ACTIVE, &1);
    let test_against = format!(
        "select anothertable.* from TestDb.AnotherTable as anothertable where anothertable.Active = :param0 order by anothertable.Name desc"
    );
    assert_eq!(q.query_to_string(), test_against);
}
