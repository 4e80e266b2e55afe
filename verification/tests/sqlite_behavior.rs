//! The storage engine itself, driven over an in-memory database, behaves as
//! the verified table model says: the primary key refuses a second row with
//! the placeholder id, the unique-name constraint refuses a shared name
//! independent of id, deleting an absent name affects zero rows without
//! failing, and listed rows round-trip every field.

use lift_cli::movement::Movement;
use lift_cli::movement::PLACEHOLDER_ID;
use rusqlite::Connection;

const CREATE_TABLE_SQL: &str = "create table if not exists movements
        (id integer primary key,
         name text not null unique,
         is_upper integer,
         require_weight integer)";

const INSERT_SQL: &str = "INSERT INTO movements
        (id, name, is_upper, require_weight)
        VALUES (?1, ?2, ?3, ?4)";

const DELETE_SQL: &str = "DELETE FROM movements WHERE name=(?1)";

const SELECT_SQL: &str = "SELECT * FROM movements";

fn open_table() -> Connection {
    let conn = Connection::open_in_memory().expect("open in-memory database");
    conn.execute(CREATE_TABLE_SQL, ()).expect("create table");
    conn
}

fn insert(conn: &Connection, m: &Movement) -> rusqlite::Result<usize> {
    conn.execute(INSERT_SQL, (m.id, m.name.as_str(), m.is_upper, m.require_weight))
}

fn all_rows(conn: &Connection) -> Vec<Movement> {
    let mut stmt = conn.prepare(SELECT_SQL).expect("prepare select");
    let rows = stmt
        .query_map((), |row| {
            Ok(Movement {
                id: row.get(0)?,
                name: row.get(1)?,
                is_upper: row.get(2)?,
                require_weight: row.get(3)?,
            })
        })
        .expect("query rows");
    rows.map(|r| r.expect("read row")).collect()
}

#[test]
fn create_table_is_idempotent() {
    let conn = open_table();
    conn.execute(CREATE_TABLE_SQL, ()).expect("create table again");
}

#[test]
fn second_placeholder_insert_fails_at_the_storage_layer() {
    let conn = open_table();
    let first = Movement::with_placeholder_id("squat".to_string(), true, true);
    let second = Movement::with_placeholder_id("bench".to_string(), true, true);
    assert_eq!(first.id, second.id);
    assert_eq!(insert(&conn, &first), Ok(1));
    assert!(insert(&conn, &second).is_err());
    let rows = all_rows(&conn);
    assert_eq!(rows.len(), 1);
    assert_eq!(rows[0].name, "squat");
}

#[test]
fn distinct_ids_and_names_both_persist_in_storage() {
    let conn = open_table();
    let first = Movement { id: 1, name: "squat".to_string(), is_upper: false, require_weight: true };
    let second = Movement { id: 2, name: "bench".to_string(), is_upper: true, require_weight: true };
    assert_eq!(insert(&conn, &first), Ok(1));
    assert_eq!(insert(&conn, &second), Ok(1));
    assert_eq!(all_rows(&conn).len(), 2);
}

#[test]
fn shared_name_is_refused_independent_of_id() {
    let conn = open_table();
    let first = Movement { id: 1, name: "squat".to_string(), is_upper: false, require_weight: true };
    let second = Movement { id: 2, name: "squat".to_string(), is_upper: true, require_weight: false };
    assert_eq!(insert(&conn, &first), Ok(1));
    assert!(insert(&conn, &second).is_err());
    assert_eq!(all_rows(&conn).len(), 1);
}

#[test]
fn deleting_an_absent_name_affects_zero_rows_without_failing() {
    let conn = open_table();
    assert_eq!(conn.execute(DELETE_SQL, ("bench",)), Ok(0));
}

#[test]
fn stored_rows_round_trip_exactly() {
    let conn = open_table();
    let m = Movement { id: PLACEHOLDER_ID, name: "squat".to_string(), is_upper: true, require_weight: true };
    assert_eq!(insert(&conn, &m), Ok(1));
    let rows = all_rows(&conn);
    assert_eq!(rows.len(), 1);
    assert_eq!(rows[0].id, PLACEHOLDER_ID);
    assert_eq!(rows[0].name, "squat");
    assert!(rows[0].is_upper);
    assert!(rows[0].require_weight);
    assert_eq!(conn.execute(DELETE_SQL, ("squat",)), Ok(1));
    assert!(all_rows(&conn).is_empty());
}
