//! Statements for the storage engine, and the text of those of an event.
//!
//! The library runs no statement. It says which statements are to be run,
//! with which values in place of their parameters, and what is to be made
//! of the number of rows that each changes.

use crate::error::Error;
use crate::schema::{SqlType, Table};
use crate::text::{decimal, push_decimal};
use vstd::prelude::*;
use vstd::string::StringExecFns;

verus! {

/// A value in place of a parameter of a statement.
#[derive(Debug, Clone, PartialEq, Eq)]
pub enum SqlValue {
    Integer(i64),
    Text(String),
    Blob(Vec<u8>),
}

/// A [`SqlValue`] as a mathematical value.
pub enum SqlValueView {
    Integer(int),
    Text(Seq<char>),
    Blob(Seq<u8>),
}

impl View for SqlValue {
    type V = SqlValueView;

    open spec fn view(&self) -> SqlValueView {
        match self {
            SqlValue::Integer(number) => SqlValueView::Integer(*number as int),
            SqlValue::Text(text) => SqlValueView::Text(text@),
            SqlValue::Blob(bytes) => SqlValueView::Blob(bytes@),
        }
    }
}

impl SqlValueView {
    /// How a value of this form is stored.
    pub open spec fn storage(self) -> SqlType {
        match self {
            SqlValueView::Integer(_) => SqlType::Integer,
            SqlValueView::Text(_) => SqlType::Text,
            SqlValueView::Blob(_) => SqlType::Blob,
        }
    }
}

/// The values of a sequence as mathematical values.
pub open spec fn values_of(values: Seq<SqlValue>) -> Seq<SqlValueView> {
    values.map_values(|value: SqlValue| value@)
}

/// What is to be done with a statement.
#[derive(Debug, Clone, Copy, PartialEq, Eq, Structural)]
pub enum Run {
    /// The statement is prepared and kept for later use. It is not run.
    Prepare,
    /// The statement is run, however many rows it changes.
    Execute,
    /// The statement is run and has to change exactly one row.
    ExecuteOne,
    /// The statement is run and has to give one row, of two integers.
    Query,
}

/// A statement with the values for its parameters.
#[derive(Debug, Clone, PartialEq, Eq)]
pub struct Statement {
    /// The text of the statement.
    pub sql: String,
    /// The values for the parameters `?1`, `?2` and so on, in that order.
    pub params: Vec<SqlValue>,
    /// What is to be done with the statement.
    pub run: Run,
}

/// A [`Statement`] as a mathematical value.
pub struct StatementView {
    pub sql: Seq<char>,
    pub params: Seq<SqlValueView>,
    pub run: Run,
}

impl View for Statement {
    type V = StatementView;

    open spec fn view(&self) -> StatementView {
        StatementView { sql: self.sql@, params: values_of(self.params@), run: self.run }
    }
}

/// The statements of a sequence as mathematical values.
pub open spec fn statements_of(statements: Seq<Statement>) -> Seq<StatementView> {
    statements.map_values(|statement: Statement| statement@)
}

impl Statement {
    /// What the number of rows that the statement changed means: an error
    /// where exactly one row was to change and another number did.
    pub fn check(&self, changed: usize) -> (result: Result<(), Error>)
        ensures
            result == (if self.run == Run::ExecuteOne && changed != 1 {
                Err::<(), Error>(Error::Consistency)
            } else {
                Ok(())
            }),
    {
        match self.run {
            Run::ExecuteOne => {
                if changed != 1 {
                    return Err(Error::Consistency);
                }
                Ok(())
            },
            _ => Ok(()),
        }
    }
}

/// The columns that every table of an event has.
pub const FIXED_COLUMNS: &'static str =
    "block_number INTEGER NOT NULL, log_index INTEGER NOT NULL, transaction_index INTEGER NOT NULL, address BLOB NOT NULL";

/// The number of columns that every table of an event has.
pub const FIXED_COLUMNS_COUNT: usize = 4;

/// The primary key of the first table of an event.
pub const PRIMARY_KEY: &'static str = "block_number ASC, log_index ASC";

/// The column that the table of a dynamic array has besides.
pub const ARRAY_COLUMN: &'static str = "array_index INTEGER NOT NULL";

/// The primary key of the table of a dynamic array.
pub const PRIMARY_KEY_ARRAY: &'static str = "block_number ASC, log_index ASC, array_index ASC";

/// Creates the table of the cursors.
pub const CREATE_EVENT_BLOCK_TABLE: &'static str =
    "CREATE TABLE IF NOT EXISTS event_block(event TEXT PRIMARY KEY NOT NULL, indexed INTEGER NOT NULL, finalized INTEGER NOT NULL) STRICT;";

/// Reads the cursor of the event `?1`.
pub const GET_EVENT_BLOCK: &'static str = "SELECT indexed, finalized FROM event_block WHERE event = ?1;";

/// Gives the event `?1` a cursor at block 0, unless it has one.
pub const NEW_EVENT_BLOCK: &'static str =
    "INSERT INTO event_block (event, indexed, finalized) VALUES(?1, 0, 0) ON CONFLICT(event) DO NOTHING;";

/// Sets the cursor of the event `?1` to the blocks `?2` and `?3`.
pub const SET_EVENT_BLOCK: &'static str =
    "UPDATE event_block SET indexed = ?2, finalized = ?3 WHERE event = ?1;";

/// Sets the indexed block of the event `?1` to `?2`.
pub const SET_INDEXED_BLOCK: &'static str = "UPDATE event_block SET indexed = ?2 WHERE event = ?1";

/// The name of the table with number `index` of the event `event`.
pub open spec fn table_name(event: Seq<char>, index: nat) -> Seq<char> {
    event + "_"@ + decimal(index)
}

/// The word for a storage type in a statement.
pub open spec fn storage_word(stored: SqlType) -> Seq<char> {
    match stored {
        SqlType::Integer => "INTEGER"@,
        SqlType::Real => "REAL"@,
        SqlType::Text => "TEXT"@,
        SqlType::Blob => "BLOB"@,
    }
}

/// The name of the column with number `index`: that of the field where the
/// columns are `named`, else the letter c and the number.
pub open spec fn column_name(names: Seq<Seq<char>>, named: bool, index: nat) -> Seq<char> {
    if named {
        names[index as int]
    } else {
        "c"@ + decimal(index)
    }
}

/// The definitions of the first `count` columns of a table, each with a
/// comma and a space behind it.
pub open spec fn column_definitions(
    columns: Seq<SqlType>,
    names: Seq<Seq<char>>,
    named: bool,
    count: nat,
) -> Seq<char>
    decreases count,
{
    if count == 0 {
        Seq::empty()
    } else {
        let last = (count - 1) as nat;
        column_definitions(columns, names, named, last) + column_name(names, named, last) + " "@
            + storage_word(columns[last as int]) + ", "@
    }
}

/// The statement that creates the table with number `index` of an event,
/// unless the table exists.
///
/// The fixed columns come first, then the array index in the table of a
/// dynamic array, then the columns of the fields. Those have the names of
/// the fields in the first table where it has exactly one column for each
/// field; everywhere else they are numbered.
pub open spec fn create_table(
    event: Seq<char>,
    index: nat,
    columns: Seq<SqlType>,
    names: Seq<Seq<char>>,
) -> Seq<char> {
    let named = index == 0 && names.len() == columns.len();
    "CREATE TABLE IF NOT EXISTS "@ + table_name(event, index) + " ("@ + FIXED_COLUMNS@ + ", "@ + (
    if index != 0 {
        ARRAY_COLUMN@ + ", "@
    } else {
        Seq::empty()
    }) + column_definitions(columns, names, named, columns.len()) + "PRIMARY KEY("@ + (if index
        == 0 {
        PRIMARY_KEY@
    } else {
        PRIMARY_KEY_ARRAY@
    }) + ")) STRICT;"@
}

/// The parameters `?1` to `?count`, with commas between them.
pub open spec fn placeholders(count: nat) -> Seq<char>
    decreases count,
{
    if count == 0 {
        Seq::empty()
    } else if count == 1 {
        "?"@ + decimal(1)
    } else {
        placeholders((count - 1) as nat) + ","@ + "?"@ + decimal(count)
    }
}

/// The number of parameters of the statement that inserts into the table
/// with number `index`, which has `fields` columns for the fields.
pub open spec fn parameter_count(index: nat, fields: nat) -> nat {
    fields + FIXED_COLUMNS_COUNT as nat + (if index != 0 {
        1nat
    } else {
        0nat
    })
}

/// The statement that inserts one row into the table with number `index` of
/// an event, which has `fields` columns for the fields.
pub open spec fn insert_into(event: Seq<char>, index: nat, fields: nat) -> Seq<char> {
    "INSERT INTO "@ + table_name(event, index) + " VALUES("@ + placeholders(
        parameter_count(index, fields),
    ) + ");"@
}

/// The statement that deletes from the table with number `index` of an event
/// the rows of block `?1` and of every later block.
pub open spec fn delete_from(event: Seq<char>, index: nat) -> Seq<char> {
    "DELETE FROM "@ + table_name(event, index) + " WHERE block_number >= ?1;"@
}

fn push_table_name(text: &mut String, event: &str, index: usize)
    ensures
        final(text)@ == old(text)@ + table_name(event@, index as nat),
{
    text.append(event);
    text.append("_");
    push_decimal(text, index as u128);
    assert(text@ =~= old(text)@ + table_name(event@, index as nat));
}

fn push_storage_word(text: &mut String, stored: SqlType)
    ensures
        final(text)@ == old(text)@ + storage_word(stored),
{
    match stored {
        SqlType::Integer => text.append("INTEGER"),
        SqlType::Real => text.append("REAL"),
        SqlType::Text => text.append("TEXT"),
        SqlType::Blob => text.append("BLOB"),
    }
}

/// The text of the statement that creates the table with number `index` of
/// the event `event`, with the columns of `table` and the names of the
/// fields of the event.
pub fn create_table_sql(event: &str, index: usize, table: &Table, names: &Vec<String>) -> (sql:
    String)
    ensures
        sql@ == create_table(event@, index as nat, table@, names@.map_values(|name: String| name@)),
{
    let ghost columns = table@;
    let ghost field_names = names@.map_values(|name: String| name@);
    let named = index == 0 && names.len() == table.0.len();
    let mut sql = String::from_str("CREATE TABLE IF NOT EXISTS ");
    push_table_name(&mut sql, event, index);
    sql.append(" (");
    sql.append(FIXED_COLUMNS);
    sql.append(", ");
    if index != 0 {
        sql.append(ARRAY_COLUMN);
        sql.append(", ");
    }
    let ghost head = sql@;
    assert(head =~= "CREATE TABLE IF NOT EXISTS "@ + table_name(event@, index as nat) + " ("@
        + FIXED_COLUMNS@ + ", "@ + (if index != 0 {
        ARRAY_COLUMN@ + ", "@
    } else {
        Seq::empty()
    }));
    let mut j: usize = 0;
    assert(sql@ =~= head + column_definitions(columns, field_names, named, 0));
    while j < table.0.len()
        invariant
            j <= table.0.len(),
            columns == table@,
            columns.len() == table.0.len(),
            field_names == names@.map_values(|name: String| name@),
            named == (index == 0 && names.len() == table.0.len()),
            sql@ == head + column_definitions(columns, field_names, named, j as nat),
        decreases table.0.len() - j,
    {
        if named {
            sql.append(names[j].as_str());
        } else {
            sql.append("c");
            push_decimal(&mut sql, j as u128);
        }
        sql.append(" ");
        push_storage_word(&mut sql, table.0[j].0);
        sql.append(", ");
        assert(sql@ =~= head + column_definitions(columns, field_names, named, (j + 1) as nat));
        j = j + 1;
    }
    sql.append("PRIMARY KEY(");
    if index == 0 {
        sql.append(PRIMARY_KEY);
    } else {
        sql.append(PRIMARY_KEY_ARRAY);
    }
    sql.append(")) STRICT;");
    assert(sql@ =~= create_table(event@, index as nat, columns, field_names));
    sql
}

fn push_placeholders(text: &mut String, count: u128)
    ensures
        final(text)@ == old(text)@ + placeholders(count as nat),
{
    let mut i: u128 = 0;
    assert(text@ =~= old(text)@ + placeholders(0));
    while i < count
        invariant
            i <= count,
            text@ == old(text)@ + placeholders(i as nat),
        decreases count - i,
    {
        if i > 0 {
            text.append(",");
        }
        text.append("?");
        push_decimal(text, i + 1);
        assert(text@ =~= old(text)@ + placeholders((i + 1) as nat));
        i = i + 1;
    }
}

/// The text of the statement that inserts one row into the table with number
/// `index` of the event `event`, which has `fields` columns for the fields.
pub fn insert_into_sql(event: &str, index: usize, fields: usize) -> (sql: String)
    ensures
        sql@ == insert_into(event@, index as nat, fields as nat),
{
    let mut sql = String::from_str("INSERT INTO ");
    push_table_name(&mut sql, event, index);
    sql.append(" VALUES(");
    let extra: u128 = if index != 0 {
        1
    } else {
        0
    };
    push_placeholders(&mut sql, fields as u128 + FIXED_COLUMNS_COUNT as u128 + extra);
    sql.append(");");
    assert(sql@ =~= insert_into(event@, index as nat, fields as nat));
    sql
}

/// The text of the statement that deletes from the table with number `index`
/// of the event `event` the rows of a block and of every later block.
pub fn delete_from_sql(event: &str, index: usize) -> (sql: String)
    ensures
        sql@ == delete_from(event@, index as nat),
{
    let mut sql = String::from_str("DELETE FROM ");
    push_table_name(&mut sql, event, index);
    sql.append(" WHERE block_number >= ?1;");
    assert(sql@ =~= delete_from(event@, index as nat));
    sql
}

} // verus!
