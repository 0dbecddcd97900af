use buildlite::error::{BuildliteError, BuildliteErrorMatch};
use buildlite::execute::first_row;
use buildlite::fragment::Fragment;
use buildlite::model::Model;
use buildlite::params::ParamStore;
use buildlite::placeholder::{push_decimal, push_placeholder};

fn placeholder(n: usize) -> String {
    let mut name = String::new();
    push_placeholder(&mut name, n);
    name
}

#[test]
fn placeholder_names() {
    assert_eq!(placeholder(0), ":param0");
    assert_eq!(placeholder(7), ":param7");
    assert_eq!(placeholder(10), ":param10");
    assert_eq!(placeholder(109), ":param109");
    assert_eq!(placeholder(18446744073709551615), ":param18446744073709551615");
}

#[test]
fn decimal_is_appended() {
    let mut out = String::from("n=");
    push_decimal(&mut out, 0);
    assert_eq!(out, "n=0");
    push_decimal(&mut out, 9);
    push_decimal(&mut out, 10);
    push_decimal(&mut out, 4096);
    assert_eq!(out, "n=09104096");
    push_placeholder(&mut out, 25);
    assert_eq!(out, "n=09104096:param25");
}

#[test]
fn model_keeps_its_names() {
    let m = Model::new("BuildliteDb", "Item", "item", "Id");
    assert_eq!(m.db, "BuildliteDb");
    assert_eq!(m.table, "Item");
    assert_eq!(m.alias, "item");
    assert_eq!(m.primary_key, "Id");
    let mut out = String::from("by ");
    m.push_qualified(&mut out, "Name");
    assert_eq!(out, "by item.Name");
    let copy = m.clone();
    assert_eq!(copy.db, "BuildliteDb");
    assert_eq!(copy.table, "Item");
    assert_eq!(copy.alias, "item");
    assert_eq!(copy.primary_key, "Id");
}

#[test]
fn fragment_renders_both_ways() {
    let mut f = Fragment::new();
    assert_eq!(f.len(), 0);
    f.push_text(String::from("where a = "));
    f.push_param(3);
    f.push_text(String::from(" and b = "));
    f.push_param(12);
    assert_eq!(f.len(), 4);
    assert_eq!(f.param_at(0), None);
    assert_eq!(f.param_at(1), Some(3));
    assert_eq!(f.param_at(3), Some(12));
    let mut named = String::from("x ");
    f.render_named(&mut named);
    assert_eq!(named, "x where a = :param3 and b = :param12");
    let mut positional = String::from("x ");
    f.render_positional(&mut positional);
    assert_eq!(positional, "x where a = ? and b = ?");
}

#[test]
fn store_finds_what_was_registered() {
    let mut s = ParamStore::<&str>::new();
    assert_eq!(s.len(), 0);
    assert_eq!(s.get(0), None);
    s.insert(0, "zero");
    s.insert(2, "two");
    s.insert(5, "five");
    assert_eq!(s.len(), 3);
    assert_eq!(s.get(0), Some(&"zero"));
    assert_eq!(s.get(2), Some(&"two"));
    assert_eq!(s.get(5), Some(&"five"));
    assert_eq!(s.get(1), None);
    assert_eq!(s.get(6), None);
}

#[test]
fn store_finds_each_of_many() {
    let mut s = ParamStore::<usize>::new();
    let mut n: usize = 0;
    while n < 100 {
        s.insert(3 * n + 1, n);
        n += 1;
    }
    assert_eq!(s.len(), 100);
    let mut n: usize = 0;
    while n < 100 {
        assert_eq!(s.get(3 * n), None);
        assert_eq!(s.get(3 * n + 1), Some(&n));
        assert_eq!(s.get(3 * n + 2), None);
        n += 1;
    }
    assert_eq!(s.get(301), None);
}

#[test]
fn first_row_of_none_is_no_rows_error() {
    let rows: Vec<i64> = Vec::new();
    assert!(matches!(first_row(rows), Err(BuildliteError::NoRowsError)));
}

#[test]
fn first_row_of_several_is_the_first() {
    assert!(matches!(first_row(vec![4]), Ok(4)));
    assert!(matches!(first_row(vec![7, 8, 9]), Ok(7)));
}

#[test]
fn quick_match_passes_success_and_wraps_failure() {
    let ok: Result<i64, rusqlite::Error> = Ok(5);
    assert!(matches!(ok.quick_match(), Ok(5)));
    let failed: Result<i64, rusqlite::Error> = Err(rusqlite::Error::InvalidColumnIndex(3));
    assert!(matches!(
        failed.quick_match(),
        Err(BuildliteError::SQLError(rusqlite::Error::InvalidColumnIndex(3)))
    ));
}

#[test]
fn error_messages() {
    assert_eq!(BuildliteError::NoRowsError.message(), "No rows found!");
    let driver = rusqlite::Error::InvalidColumnIndex(3);
    let expected = format!("{}", driver);
    assert_eq!(BuildliteError::SQLError(driver).message(), expected);
    assert_eq!(expected, "Invalid column index: 3");
}
