//! The events that are registered, and the statements that keep the store.
//!
//! A registry says what is to be run: it holds no connection. Whoever holds
//! one runs the statements in their order inside one transaction, hands the
//! number of rows that each changed to [`Statement::check`], and gives the
//! transaction up at the first error.

use crate::database::{Block, EventBlock, Log, Uncle};
use crate::descriptor::{EventDescriptor, EventDescriptorView};
use crate::encode::{
    address_bytes, cells_of, lemma_tuple_fits, push_cells, push_rows, rows_of, rows_view,
    tables_view,
};
use crate::error::{Error, Failure, FailureView, SchemaError};
use crate::kind::KindView;
use crate::name::{sanitize_name, sanitized};
use crate::plan::{
    array_inserts, arrays_inserts, batch_of, creations, cursor_outcome, cursor_outcomes,
    cursor_query, delete_rows, deletions, field_names, fits, fixed_cells, foundation, in_order,
    insertions, lemma_in_order_add, lemma_in_order_first_error, log_matches, new_cursor, plain,
    plan_of, positions_fit, preparation, registration, removals, row_insert, set_cursor,
    set_indexed, store_outcome, store_outcomes, uncle_outcome, uncle_outcomes,
};
use crate::schema::{event_to_tables, layout, layout_of, Table};
use crate::statement::{
    create_table_sql, delete_from, delete_from_sql, insert_into, insert_into_sql,
    statements_of, values_of, Run, SqlValue, SqlValueView, Statement, StatementView,
    GET_EVENT_BLOCK, NEW_EVENT_BLOCK, SET_EVENT_BLOCK, SET_INDEXED_BLOCK,
};
use crate::text::same_text;
use crate::value::{Value, ValueView};
use vstd::prelude::*;
use vstd::string::StringExecFns;

verus! {

/// The statement that inserts a row into one table of an event.
#[derive(Debug, PartialEq, Eq)]
pub struct InsertStatement {
    /// The text of the statement.
    pub sql: String,
    /// The number of columns that hold fields of the event.
    pub fields: usize,
}

/// An event that is registered: its identifier, its descriptor, and for each
/// of its tables the statement that inserts a row and the one that deletes
/// the rows from a block on.
pub struct PreparedEvent {
    name: String,
    descriptor: EventDescriptor,
    insert_statements: Vec<InsertStatement>,
    remove_statements: Vec<String>,
}

impl PreparedEvent {
    /// The statements are those of the tables of the event, and no dynamic
    /// array of the event stands inside another.
    #[verifier::type_invariant]
    pub closed spec fn consistent(self) -> bool {
        let tables = layout(self.descriptor@.kinds());
        &&& KindView::nesting_of(self.descriptor@.kinds()) <= 1
        &&& self.insert_statements@.len() == tables.len()
        &&& self.remove_statements@.len() == tables.len()
        &&& forall|i: int|
            0 <= i < tables.len() ==> {
                &&& (#[trigger] self.insert_statements@[i]).sql@ == insert_into(
                    self.name@,
                    i as nat,
                    tables[i].len(),
                )
                &&& self.insert_statements@[i].fields == tables[i].len()
            }
        &&& forall|i: int|
            0 <= i < tables.len() ==> (#[trigger] self.remove_statements@[i])@ == delete_from(
                self.name@,
                i as nat,
            )
    }

    /// The identifier of the event.
    pub closed spec fn name(self) -> Seq<char> {
        self.name@
    }

    /// The descriptor of the event.
    pub closed spec fn descriptor(self) -> EventDescriptorView {
        self.descriptor@
    }

    /// For each table of the event, the statement that inserts a row, with
    /// the number of columns for the fields.
    pub fn insert_statements(&self) -> (statements: &Vec<InsertStatement>)
        ensures
            statements@.len() == layout(self.descriptor().kinds()).len(),
            forall|i: int|
                0 <= i < statements@.len() ==> {
                    &&& (#[trigger] statements@[i]).sql@ == insert_into(
                        self.name(),
                        i as nat,
                        layout(self.descriptor().kinds())[i].len(),
                    )
                    &&& statements@[i].fields == layout(self.descriptor().kinds())[i].len()
                },
    {
        proof {
            use_type_invariant(self);
        }
        &self.insert_statements
    }

    /// For each table of the event, the statement that deletes the rows of a
    /// block and of every later block.
    pub fn remove_statements(&self) -> (statements: &Vec<String>)
        ensures
            statements@.len() == layout(self.descriptor().kinds()).len(),
            forall|i: int|
                0 <= i < statements@.len() ==> (#[trigger] statements@[i])@ == delete_from(
                    self.name(),
                    i as nat,
                ),
    {
        proof {
            use_type_invariant(self);
        }
        &self.remove_statements
    }
}

/// A new event, with the statements that registering it takes.
pub struct Preparation {
    event: PreparedEvent,
    statements: Vec<Statement>,
}

impl Preparation {
    /// The statements are those that registering the event takes.
    #[verifier::type_invariant]
    pub closed spec fn consistent(self) -> bool {
        self.plan() == preparation(self.event.name(), self.event.descriptor())
    }

    /// The statements to run before the event is registered.
    pub closed spec fn plan(self) -> Seq<StatementView> {
        statements_of(self.statements@)
    }

    /// The identifier of the event.
    pub closed spec fn name(self) -> Seq<char> {
        self.event.name()
    }

    /// The descriptor of the event.
    pub closed spec fn descriptor(self) -> EventDescriptorView {
        self.event.descriptor()
    }

    /// The statements to run before the event is registered: those of
    /// [`preparation`].
    pub fn statements(&self) -> (statements: &Vec<Statement>)
        ensures
            statements_of(statements@) == self.plan(),
            self.plan() == preparation(self.name(), self.descriptor()),
    {
        proof {
            use_type_invariant(self);
        }
        &self.statements
    }
}

/// The events that are registered, each under its identifier.
pub struct Registry {
    events: Vec<PreparedEvent>,
}

impl View for Registry {
    type V = Map<Seq<char>, EventDescriptorView>;

    /// The descriptor of each registered event, by the identifier of the
    /// event.
    closed spec fn view(&self) -> Map<Seq<char>, EventDescriptorView> {
        Map::new(
            |name: Seq<char>| self.position(name) is Some,
            |name: Seq<char>| self.events@[self.position(name)->0].descriptor(),
        )
    }
}

impl Registry {
    /// No two events have the same identifier.
    #[verifier::type_invariant]
    pub closed spec fn distinct(self) -> bool {
        forall|i: int, j: int|
            0 <= i < j < self.events@.len() ==> (#[trigger] self.events@[i]).name() != (
            #[trigger] self.events@[j]).name()
    }

    /// Where the event with the identifier `name` stands, if it is there.
    pub closed spec fn position(self, name: Seq<char>) -> Option<int> {
        if exists|i: int| 0 <= i < self.events@.len() && (#[trigger] self.events@[i]).name() == name {
            Some(
                choose|i: int|
                    0 <= i < self.events@.len() && (#[trigger] self.events@[i]).name() == name,
            )
        } else {
            None
        }
    }

    /// A registry without events.
    pub fn new() -> (registry: Registry)
        ensures
            registry@ == Map::<Seq<char>, EventDescriptorView>::empty(),
    {
        let registry = Registry { events: Vec::new() };
        assert(registry@ =~= Map::<Seq<char>, EventDescriptorView>::empty());
        registry
    }

    /// The event that is registered under `name`, if there is one.
    pub fn get(&self, name: &str) -> (found: Option<&PreparedEvent>)
        ensures
            match found {
                Some(event) => {
                    &&& self@.contains_key(sanitized(name@))
                    &&& event.name() == sanitized(name@)
                    &&& event.descriptor() == self@[sanitized(name@)]
                },
                None => !self@.contains_key(sanitized(name@)),
            },
    {
        let identifier = sanitize_name(name);
        match self.find(identifier.as_str()) {
            Some(at) => Some(&self.events[at]),
            None => None,
        }
    }

    /// Where the event with the identifier `name` stands.
    fn find(&self, name: &str) -> (found: Option<usize>)
        ensures
            match found {
                Some(i) => {
                    &&& i < self.events@.len()
                    &&& self.events@[i as int].name() == name@
                    &&& self@.contains_key(name@)
                    &&& self@[name@] == self.events@[i as int].descriptor()
                },
                None => !self@.contains_key(name@),
            },
    {
        proof {
            use_type_invariant(self);
        }
        let mut i: usize = 0;
        while i < self.events.len()
            invariant
                i <= self.events.len(),
                self.distinct(),
                forall|j: int| 0 <= j < i ==> (#[trigger] self.events@[j]).name() != name@,
            decreases self.events.len() - i,
        {
            if same_text(self.events[i].name.as_str(), name) {
                proof {
                    let k = self.position(name@)->0;
                    assert(self.events@[i as int].name() == name@);
                    assert(k == i);
                }
                return Some(i);
            }
            i = i + 1;
        }
        None
    }
}

/// The identifiers of the fields of `event`, unless two are the same.
fn sanitize_field_names(event: &EventDescriptor) -> (result: Result<Vec<String>, SchemaError>)
    ensures
        match result {
            Ok(names) => {
                &&& names@.map_values(|name: String| name@) == field_names(event@)
                &&& field_names(event@).no_duplicates()
            },
            Err(error) => {
                &&& error == SchemaError::DuplicateFieldName
                &&& !field_names(event@).no_duplicates()
            },
        },
{
    let ghost wanted = field_names(event@);
    let mut names: Vec<String> = Vec::new();
    let mut i: usize = 0;
    while i < event.inputs.len()
        invariant
            wanted == field_names(event@),
            wanted.len() == event.inputs.len(),
            i <= event.inputs.len(),
            names@.len() == i,
            forall|j: int| 0 <= j < i ==> (#[trigger] names@[j])@ == wanted[j],
            forall|j: int, k: int| 0 <= j < k < i ==> wanted[j] != wanted[k],
        decreases event.inputs.len() - i,
    {
        let name = sanitize_name(event.inputs[i].name.as_str());
        assert(name@ == wanted[i as int]);
        let mut j: usize = 0;
        while j < i
            invariant
                wanted == field_names(event@),
                j <= i,
                i < wanted.len(),
                names@.len() == i,
                name@ == wanted[i as int],
                forall|k: int| 0 <= k < i ==> (#[trigger] names@[k])@ == wanted[k],
                forall|k: int| 0 <= k < j ==> wanted[k] != wanted[i as int],
            decreases i - j,
        {
            if same_text(names[j].as_str(), name.as_str()) {
                assert(wanted[j as int] == wanted[i as int]);
                return Err(SchemaError::DuplicateFieldName);
            }
            j = j + 1;
        }
        names.push(name);
        i = i + 1;
    }
    assert(names@.map_values(|name: String| name@) =~= wanted);
    Ok(names)
}

/// A statement without parameters.
fn plain_statement(sql: String, run: Run) -> (statement: Statement)
    ensures
        statement@ == plain(sql@, run),
{
    let statement = Statement { sql, params: Vec::new(), run };
    assert(statement@.params =~= Seq::empty());
    statement
}

/// The statements of two sequences, one behind the other.
proof fn lemma_statements_of_add(first: Seq<Statement>, second: Seq<Statement>)
    ensures
        statements_of(first + second) == statements_of(first) + statements_of(second),
{
    assert(statements_of(first + second) =~= statements_of(first) + statements_of(second));
}

/// The statements of a sequence with one more.
proof fn lemma_statements_of_push(first: Seq<Statement>, last: Statement)
    ensures
        statements_of(first.push(last)) == statements_of(first).push(last@),
{
    assert(statements_of(first.push(last)) =~= statements_of(first).push(last@));
}

/// The new event `event` with the identifier `name`, the tables `tables` and
/// the field identifiers `names`.
fn prepare(name: String, event: &EventDescriptor, tables: &Vec<Table>, names: &Vec<String>) -> (new:
    Preparation)
    requires
        KindView::nesting_of(event@.kinds()) <= 1,
        layout_of(tables@) == layout(event@.kinds()),
        names@.map_values(|name: String| name@) == field_names(event@),
    ensures
        new.name() == name@,
        new.descriptor() == event@,
        new.plan() == preparation(name@, event@),
{
    let ghost shape = layout(event@.kinds());
    let mut statements: Vec<Statement> = Vec::new();
    let mut i: usize = 0;
    while i < tables.len()
        invariant
            shape == layout(event@.kinds()),
            layout_of(tables@) == shape,
            shape.len() == tables.len(),
            names@.map_values(|name: String| name@) == field_names(event@),
            i <= tables.len(),
            statements_of(statements@) == creations(name@, event@).take(i as int),
        decreases tables.len() - i,
    {
        let sql = create_table_sql(name.as_str(), i, &tables[i], names);
        let statement = plain_statement(sql, Run::Execute);
        proof {
            assert(layout_of(tables@)[i as int] == tables@[i as int]@);
            lemma_statements_of_push(statements@, statement);
            assert(creations(name@, event@).take(i + 1) =~= creations(name@, event@).take(
                i as int,
            ).push(statement@));
        }
        statements.push(statement);
        i = i + 1;
    }
    assert(creations(name@, event@).take(tables.len() as int) =~= creations(name@, event@));

    let mut params: Vec<SqlValue> = Vec::new();
    params.push(SqlValue::Text(name.clone()));
    let cursor = Statement { sql: String::from_str(NEW_EVENT_BLOCK), params, run: Run::Execute };
    proof {
        assert(cursor@.params =~= new_cursor(name@).params);
        lemma_statements_of_push(statements@, cursor);
    }
    statements.push(cursor);

    let ghost head = statements_of(statements@);
    let mut insert_statements: Vec<InsertStatement> = Vec::new();
    let mut i: usize = 0;
    while i < tables.len()
        invariant
            shape == layout(event@.kinds()),
            layout_of(tables@) == shape,
            shape.len() == tables.len(),
            i <= tables.len(),
            insert_statements@.len() == i,
            forall|j: int|
                0 <= j < i ==> {
                    &&& (#[trigger] insert_statements@[j]).sql@ == insert_into(
                        name@,
                        j as nat,
                        shape[j].len(),
                    )
                    &&& insert_statements@[j].fields == shape[j].len()
                },
            statements_of(statements@) == head + insertions(name@, event@).take(i as int),
        decreases tables.len() - i,
    {
        let fields = tables[i].0.len();
        let sql = insert_into_sql(name.as_str(), i, fields);
        let statement = plain_statement(sql.clone(), Run::Prepare);
        proof {
            assert(layout_of(tables@)[i as int] == tables@[i as int]@);
            lemma_statements_of_push(statements@, statement);
            assert(insertions(name@, event@).take(i + 1) =~= insertions(name@, event@).take(
                i as int,
            ).push(statement@));
            assert(head + insertions(name@, event@).take(i + 1) =~= (head + insertions(
                name@,
                event@,
            ).take(i as int)).push(statement@));
        }
        statements.push(statement);
        insert_statements.push(InsertStatement { sql, fields });
        i = i + 1;
    }
    assert(insertions(name@, event@).take(tables.len() as int) =~= insertions(name@, event@));

    let ghost head = statements_of(statements@);
    let mut remove_statements: Vec<String> = Vec::new();
    let mut i: usize = 0;
    while i < tables.len()
        invariant
            shape == layout(event@.kinds()),
            shape.len() == tables.len(),
            i <= tables.len(),
            remove_statements@.len() == i,
            forall|j: int|
                0 <= j < i ==> (#[trigger] remove_statements@[j])@ == delete_from(name@, j as nat),
            statements_of(statements@) == head + deletions(name@, event@).take(i as int),
        decreases tables.len() - i,
    {
        let sql = delete_from_sql(name.as_str(), i);
        let statement = plain_statement(sql.clone(), Run::Prepare);
        proof {
            lemma_statements_of_push(statements@, statement);
            assert(deletions(name@, event@).take(i + 1) =~= deletions(name@, event@).take(
                i as int,
            ).push(statement@));
            assert(head + deletions(name@, event@).take(i + 1) =~= (head + deletions(
                name@,
                event@,
            ).take(i as int)).push(statement@));
        }
        statements.push(statement);
        remove_statements.push(sql);
        i = i + 1;
    }
    assert(deletions(name@, event@).take(tables.len() as int) =~= deletions(name@, event@));
    assert(statements_of(statements@) =~= preparation(name@, event@));

    let event = PreparedEvent {
        name,
        descriptor: event.clone(),
        insert_statements,
        remove_statements,
    };
    Preparation { event, statements }
}

impl Registry {
    /// Prepares the registration of `event` under `name`.
    ///
    /// The result is that of [`registration`]: an error, nothing where the
    /// event is registered already with the same descriptor, and a new event
    /// otherwise. The registry stays as it is: once the statements of the new
    /// event have been run, [`Registry::register`] takes the event in.
    pub fn prepare_event(&self, name: &str, event: &EventDescriptor) -> (result: Result<
        Option<Preparation>,
        SchemaError,
    >)
        ensures
            match result {
                Ok(Some(new)) => {
                    &&& registration(self@, name@, event@) == Ok::<bool, SchemaError>(true)
                    &&& new.name() == sanitized(name@)
                    &&& new.descriptor() == event@
                    &&& new.plan() == preparation(sanitized(name@), event@)
                },
                Ok(None) => registration(self@, name@, event@) == Ok::<bool, SchemaError>(false),
                Err(error) => registration(self@, name@, event@) == Err::<bool, SchemaError>(error),
            },
    {
        let name = sanitize_name(name);
        let names = match sanitize_field_names(event) {
            Ok(names) => names,
            Err(error) => {
                return Err(error);
            },
        };
        match self.find(name.as_str()) {
            Some(i) => {
                if !event.same(&self.events[i].descriptor) {
                    return Err(SchemaError::DescriptorMismatch);
                }
                return Ok(None);
            },
            None => {},
        }
        let tables = match event_to_tables(event) {
            Ok(tables) => tables,
            Err(error) => {
                return Err(error);
            },
        };
        Ok(Some(prepare(name, event, &tables, &names)))
    }

    /// Takes in a new event, once the statements of its preparation have been
    /// run. Where an event with the same identifier has been taken in since,
    /// the registry stays as it is.
    pub fn register(&mut self, new: Preparation)
        ensures
            final(self)@ == if old(self)@.contains_key(new.name()) {
                old(self)@
            } else {
                old(self)@.insert(new.name(), new.descriptor())
            },
    {
        proof {
            use_type_invariant(&*self);
        }
        let Preparation { event, statements: _ } = new;
        if self.find(event.name.as_str()).is_none() {
            let ghost before = *self;
            let mut taken = Registry::new();
            std::mem::swap(self, &mut taken);
            let Registry { events: mut events } = taken;
            events.push(event);
            *self = Registry { events };
            proof {
                assert forall|name: Seq<char>| #[trigger]
                    self@.contains_key(name) <==> before@.insert(
                        event.name(),
                        event.descriptor(),
                    ).contains_key(name) by {
                    if before.position(name) is Some {
                        let k = before.position(name)->0;
                        assert(self.events@[k].name() == name);
                    }
                    if self.position(name) is Some {
                        let k = self.position(name)->0;
                        if k < before.events@.len() {
                            assert(before.events@[k].name() == name);
                        }
                    }
                    if name == event.name() {
                        assert(self.events@[self.events@.len() - 1].name() == name);
                    }
                }
                assert forall|name: Seq<char>| #[trigger] self@.contains_key(name) implies self@[name]
                    == before@.insert(event.name(), event.descriptor())[name] by {
                    let k = self.position(name)->0;
                    if k < before.events@.len() {
                        assert(before.events@[k].name() == name);
                        let b = before.position(name)->0;
                        assert(b == k);
                    }
                }
                assert(self@ =~= before@.insert(event.name(), event.descriptor()));
            }
        }
    }
}

/// The cursor that the table of cursors holds for an event, from the row
/// that the statement of [`Registry::event_block`] gave. Without a row the
/// event is unknown, and a negative block is an error.
pub fn block_from_row(row: Option<(i64, i64)>) -> (result: Result<Block, Error>)
    ensures
        result == (match row {
            None => Err::<Block, Error>(Error::UnknownEvent),
            Some((indexed, finalized)) => if indexed < 0 || finalized < 0 {
                Err(Error::Range)
            } else {
                Ok(Block { indexed: indexed as u64, finalized: finalized as u64 })
            },
        }),
{
    match row {
        None => Err(Error::UnknownEvent),
        Some((indexed, finalized)) => {
            if indexed < 0 || finalized < 0 {
                return Err(Error::Range);
            }
            Ok(Block { indexed: indexed as u64, finalized: finalized as u64 })
        },
    }
}

/// A copy of a value.
fn copy_value(value: &SqlValue) -> (copy: SqlValue)
    ensures
        copy@ == value@,
{
    match value {
        SqlValue::Integer(number) => SqlValue::Integer(*number),
        SqlValue::Text(text) => SqlValue::Text(text.clone()),
        SqlValue::Blob(bytes) => SqlValue::Blob(crate::value::copy_bytes(bytes)),
    }
}

/// The cells that every row of `log` begins with.
fn fixed_params(log: &Log) -> (params: Vec<SqlValue>)
    requires
        fits(log@.block_number),
        fits(log@.log_index),
        fits(log@.transaction_index),
    ensures
        values_of(params@) == fixed_cells(log@),
{
    let mut params: Vec<SqlValue> = Vec::new();
    params.push(SqlValue::Integer(log.block_number as i64));
    params.push(SqlValue::Integer(log.log_index as i64));
    params.push(SqlValue::Integer(log.transaction_index as i64));
    params.push(SqlValue::Blob(address_bytes(&log.address)));
    assert(values_of(params@) =~= fixed_cells(log@));
    params
}

impl Registry {
    /// The statements to run on a new connection: those of [`foundation`].
    pub fn setup() -> (statements: Vec<Statement>)
        ensures
            statements_of(statements@) == foundation(),
    {
        let mut statements: Vec<Statement> = Vec::new();
        statements.push(
            plain_statement(
                String::from_str(crate::statement::CREATE_EVENT_BLOCK_TABLE),
                Run::Execute,
            ),
        );
        statements.push(plain_statement(String::from_str(GET_EVENT_BLOCK), Run::Prepare));
        statements.push(plain_statement(String::from_str(SET_EVENT_BLOCK), Run::Prepare));
        statements.push(plain_statement(String::from_str(SET_INDEXED_BLOCK), Run::Prepare));
        assert(statements_of(statements@) =~= foundation());
        statements
    }

    /// The statement that reads the cursor of the event `name`. The row that
    /// it gives goes to [`block_from_row`].
    pub fn event_block(&self, name: &str) -> (statement: Statement)
        ensures
            statement@ == cursor_query(sanitized(name@)),
    {
        let identifier = sanitize_name(name);
        let mut params: Vec<SqlValue> = Vec::new();
        params.push(SqlValue::Text(identifier));
        let statement = Statement { sql: String::from_str(GET_EVENT_BLOCK), params, run: Run::Query };
        assert(statement@.params =~= cursor_query(sanitized(name@)).params);
        statement
    }

    /// The statement that sets the cursor of one event.
    fn set_event_block(&self, block: &EventBlock) -> (result: Result<Vec<Statement>, Error>)
        ensures
            plan_of(result) == cursor_outcome(self@, block.event@, block.block),
    {
        let name = sanitize_name(block.event);
        if self.find(name.as_str()).is_none() {
            return Err(Error::UnknownEvent);
        }
        if block.block.indexed > i64::MAX as u64 || block.block.finalized > i64::MAX as u64 {
            return Err(Error::Range);
        }
        let mut params: Vec<SqlValue> = Vec::new();
        params.push(SqlValue::Text(name));
        params.push(SqlValue::Integer(block.block.indexed as i64));
        params.push(SqlValue::Integer(block.block.finalized as i64));
        let statement = Statement {
            sql: String::from_str(SET_EVENT_BLOCK),
            params,
            run: Run::ExecuteOne,
        };
        assert(statement@.params =~= set_cursor(sanitized(block.event@), block.block).params);
        let mut statements: Vec<Statement> = Vec::new();
        statements.push(statement);
        assert(statements_of(statements@) =~= seq![set_cursor(sanitized(block.event@), block.block)]);
        Ok(statements)
    }

    /// The statements that set the cursors of `blocks`, in their order, each
    /// as [`cursor_outcome`] says. With an error among them, nothing is to
    /// be run, and the error is the first in their order.
    pub fn set_event_blocks<'a>(&self, blocks: &[EventBlock<'a>]) -> (result: Result<
        Vec<Statement>,
        Failure<'a>,
    >)
        ensures
            batch_of(result) == in_order(cursor_outcomes(self@, blocks@)),
    {
        let ghost outcomes = cursor_outcomes(self@, blocks@);
        let mut statements: Vec<Statement> = Vec::new();
        let mut i: usize = 0;
        proof {
            assert(outcomes.take(0) =~= Seq::empty());
            assert(statements_of(statements@) =~= Seq::empty());
        }
        while i < blocks.len()
            invariant
                outcomes == cursor_outcomes(self@, blocks@),
                outcomes.len() == blocks.len(),
                i <= blocks.len(),
                in_order(outcomes.take(i as int)) == Ok::<Seq<StatementView>, FailureView>(
                    statements_of(statements@),
                ),
            decreases blocks.len() - i,
        {
            let ghost before = statements@;
            match self.set_event_block(&blocks[i]) {
                Err(error) => {
                    proof {
                        lemma_in_order_first_error(outcomes, i as int);
                    }
                    return Err(Failure { event: blocks[i].event, error });
                },
                Ok(mut more) => {
                    let ghost added = more@;
                    statements.append(&mut more);
                    proof {
                        lemma_statements_of_add(before, added);
                        assert(outcomes.take(i + 1).drop_last() =~= outcomes.take(i as int));
                    }
                },
            }
            i = i + 1;
        }
        proof {
            assert(outcomes.take(blocks.len() as int) =~= outcomes);
        }
        Ok(statements)
    }

    /// The statements that store `log`, as [`store_outcome`] says: one row
    /// in the first table of its event, then one row for each element of
    /// each of its dynamic arrays, with the fixed cells, the position of the
    /// element and the cells of the element.
    pub fn store_event(&self, log: &Log) -> (result: Result<Vec<Statement>, Error>)
        ensures
            plan_of(result) == store_outcome(self@, log@),
    {
        let name = sanitize_name(log.event);
        let at = match self.find(name.as_str()) {
            Some(at) => at,
            None => {
                return Err(Error::UnknownEvent);
            },
        };
        let event = &self.events[at];
        proof {
            use_type_invariant(event);
        }
        if !log_fits(&event.descriptor, log) {
            return Err(Error::ValueMismatch);
        }
        if log.block_number > i64::MAX as u64 || log.log_index > i64::MAX as u64
            || log.transaction_index > i64::MAX as u64 {
            return Err(Error::Range);
        }
        let (params, arrays) = encode_log(log);
        if !check_positions(&arrays) {
            return Err(Error::Range);
        }
        let ghost fields = log@.fields;
        let ghost tables = layout(event.descriptor().kinds());
        let ghost fixed = fixed_cells(log@);
        let ghost all = rows_of(fields);
        proof {
            ValueView::lemma_all_well_formed(fields);
            ValueView::lemma_kinds_of(fields);
            lemma_tuple_fits(fields);
            assert(ValueView::kinds_of(fields) =~= event.descriptor().kinds());
            assert(arrays@.len() == tables_view(arrays@).len());
        }
        let mut statements: Vec<Statement> = Vec::new();
        let root = Statement {
            sql: event.insert_statements[0].sql.clone(),
            params,
            run: Run::ExecuteOne,
        };
        statements.push(root);
        proof {
            assert(all.take(0) =~= Seq::empty());
            assert(statements_of(statements@) =~= seq![
                row_insert(name@, 0, tables[0].len(), fixed + cells_of(fields)),
            ] + arrays_inserts(name@, tables, fixed, all.take(0)));
        }
        let mut j: usize = 0;
        while j < arrays.len()
            invariant
                j <= arrays.len(),
                fits(log@.block_number),
                fits(log@.log_index),
                fits(log@.transaction_index),
                fixed == fixed_cells(log@),
                fields == log@.fields,
                all == rows_of(fields),
                tables_view(arrays@) == all,
                arrays@.len() == all.len(),
                positions_fit(all),
                event.insert_statements@.len() == tables.len(),
                all.len() + 1 == tables.len(),
                forall|k: int|
                    0 <= k < tables.len() ==> (#[trigger] event.insert_statements@[k]).sql@
                        == insert_into(name@, k as nat, tables[k].len()),
                statements_of(statements@) == seq![
                    row_insert(name@, 0, tables[0].len(), fixed + cells_of(fields)),
                ] + arrays_inserts(name@, tables, fixed, all.take(j as int)),
            decreases arrays.len() - j,
        {
            proof {
                assert(all[j as int] == rows_view(arrays@[j as int]@));
            }
            push_array_inserts(
                &mut statements,
                &event.insert_statements[j + 1].sql,
                log,
                &arrays[j],
                Ghost(name@),
                Ghost((j + 1) as nat),
                Ghost(tables[j + 1].len()),
            );
            proof {
                let next = all.take(j + 1);
                assert(next.drop_last() =~= all.take(j as int));
                assert(next.last() == all[j as int]);
                assert(next.len() == j + 1);
                assert(statements_of(statements@) =~= seq![
                    row_insert(name@, 0, tables[0].len(), fixed + cells_of(fields)),
                ] + arrays_inserts(name@, tables, fixed, next));
            }
            j = j + 1;
        }
        proof {
            assert(all.take(arrays.len() as int) =~= all);
        }
        Ok(statements)
    }
}

/// Whether the values of `log` match the fields of `descriptor`.
fn log_fits(descriptor: &EventDescriptor, log: &Log) -> (fits: bool)
    ensures
        fits == log_matches(descriptor@, log@),
{
    let ghost fields = log@.fields;
    proof {
        Value::lemma_models(log.fields@);
    }
    if log.fields.len() != descriptor.inputs.len() {
        return false;
    }
    let mut i: usize = 0;
    while i < log.fields.len()
        invariant
            fields == log@.fields,
            fields.len() == log.fields.len(),
            log.fields.len() == descriptor.inputs.len(),
            i <= log.fields.len(),
            forall|j: int|
                0 <= j < i ==> (#[trigger] fields[j]).has_kind(descriptor@.inputs[j].kind),
        decreases log.fields.len() - i,
    {
        proof {
            Value::lemma_models(log.fields@);
        }
        if !log.fields[i].has_kind(&descriptor.inputs[i].kind) {
            assert(!fields[i as int].has_kind(descriptor@.inputs[i as int].kind));
            return false;
        }
        i = i + 1;
    }
    true
}

/// The cells of the row of `log` in the first table, and the rows of each
/// of its dynamic arrays.
fn encode_log(log: &Log) -> (encoded: (Vec<SqlValue>, Vec<Vec<Vec<SqlValue>>>))
    requires
        fits(log@.block_number),
        fits(log@.log_index),
        fits(log@.transaction_index),
    ensures
        values_of(encoded.0@) == fixed_cells(log@) + cells_of(log@.fields),
        tables_view(encoded.1@) == rows_of(log@.fields),
{
    let ghost fields = log@.fields;
    let mut params = fixed_params(log);
    let mut arrays: Vec<Vec<Vec<SqlValue>>> = Vec::new();
    let mut i: usize = 0;
    proof {
        Value::lemma_models(log.fields@);
        assert(fields.take(0) =~= Seq::empty());
        assert(values_of(params@) =~= fixed_cells(log@) + cells_of(fields.take(0)));
        assert(tables_view(arrays@) =~= rows_of(fields.take(0)));
    }
    while i < log.fields.len()
        invariant
            fields == log@.fields,
            fields.len() == log.fields.len(),
            i <= log.fields.len(),
            values_of(params@) == fixed_cells(log@) + cells_of(fields.take(i as int)),
            tables_view(arrays@) == rows_of(fields.take(i as int)),
        decreases log.fields.len() - i,
    {
        push_cells(&mut params, &log.fields[i]);
        push_rows(&mut arrays, &log.fields[i]);
        proof {
            Value::lemma_models(log.fields@);
            let next = fields.take(i + 1);
            assert(next.drop_last() =~= fields.take(i as int));
            assert(next.last() == log.fields@[i as int].model());
            assert(values_of(params@) =~= fixed_cells(log@) + cells_of(next));
        }
        i = i + 1;
    }
    proof {
        assert(fields.take(log.fields.len() as int) =~= fields);
    }
    (params, arrays)
}

/// Whether the position of every element of every array fits.
fn check_positions(arrays: &Vec<Vec<Vec<SqlValue>>>) -> (fit: bool)
    ensures
        fit == positions_fit(tables_view(arrays@)),
{
    let ghost all = tables_view(arrays@);
    let mut j: usize = 0;
    while j < arrays.len()
        invariant
            j <= arrays.len(),
            all == tables_view(arrays@),
            forall|k: int| 0 <= k < j ==> (#[trigger] all[k]).len() <= i64::MAX + 1,
        decreases arrays.len() - j,
    {
        assert(all[j as int] == rows_view(arrays@[j as int]@));
        if arrays[j].len() as u128 > 0x8000_0000_0000_0000u128 {
            assert(!(all[j as int].len() <= i64::MAX + 1));
            return false;
        }
        j = j + 1;
    }
    true
}

/// Puts behind `statements` those that insert the rows `rows` of one dynamic
/// array of `log`, with the text `sql`.
fn push_array_inserts(
    statements: &mut Vec<Statement>,
    sql: &String,
    log: &Log,
    rows: &Vec<Vec<SqlValue>>,
    Ghost(name): Ghost<Seq<char>>,
    Ghost(table): Ghost<nat>,
    Ghost(fields): Ghost<nat>,
)
    requires
        fits(log@.block_number),
        fits(log@.log_index),
        fits(log@.transaction_index),
        rows@.len() <= i64::MAX + 1,
        sql@ == insert_into(name, table, fields),
    ensures
        statements_of(final(statements)@) == statements_of(old(statements)@) + array_inserts(
            name,
            table,
            fields,
            fixed_cells(log@),
            rows_view(rows@),
        ),
{
    let ghost head = statements_of(statements@);
    let ghost fixed = fixed_cells(log@);
    let ghost wanted = array_inserts(name, table, fields, fixed, rows_view(rows@));
    proof {
        assert(wanted.take(0) =~= Seq::empty());
        assert(statements_of(statements@) =~= head + wanted.take(0));
    }
    let mut r: usize = 0;
    while r < rows.len()
        invariant
            r <= rows.len(),
            fits(log@.block_number),
            fits(log@.log_index),
            fits(log@.transaction_index),
            fixed == fixed_cells(log@),
            rows@.len() <= i64::MAX + 1,
            sql@ == insert_into(name, table, fields),
            wanted == array_inserts(name, table, fields, fixed, rows_view(rows@)),
            statements_of(statements@) == head + wanted.take(r as int),
        decreases rows.len() - r,
    {
        let mut params = fixed_params(log);
        params.push(SqlValue::Integer(r as i64));
        let row = &rows[r];
        let ghost start = values_of(params@);
        let mut c: usize = 0;
        proof {
            assert(start =~= fixed + seq![SqlValueView::Integer(r as int)]);
            assert(values_of(params@) =~= start + values_of(row@).take(0));
        }
        while c < row.len()
            invariant
                c <= row.len(),
                values_of(params@) == start + values_of(row@).take(c as int),
            decreases row.len() - c,
        {
            let copy = copy_value(&row[c]);
            let ghost before = params@;
            params.push(copy);
            proof {
                assert(values_of(row@)[c as int] == copy@);
                assert(values_of(row@).take(c + 1) =~= values_of(row@).take(c as int).push(copy@));
                assert(values_of(before.push(copy)) =~= values_of(before).push(copy@));
                assert(values_of(params@) =~= start + values_of(row@).take(c + 1));
            }
            c = c + 1;
        }
        proof {
            assert(values_of(row@).take(row.len() as int) =~= values_of(row@));
            assert(rows_view(rows@)[r as int] == values_of(row@));
        }
        let statement = Statement { sql: sql.clone(), params, run: Run::ExecuteOne };
        proof {
            assert(statement@ == wanted[r as int]);
            lemma_statements_of_push(statements@, statement);
            assert(head + wanted.take(r + 1) =~= (head + wanted.take(r as int)).push(statement@));
        }
        statements.push(statement);
        r = r + 1;
    }
    proof {
        assert(wanted.take(rows.len() as int) =~= wanted);
    }
}

impl Registry {
    /// The statements that store `logs`, in their order, each as
    /// [`store_outcome`] says. With an error among them, nothing is to be
    /// run, and the error is the first in their order.
    fn store_events<'a>(&self, logs: &[Log<'a>]) -> (result: Result<Vec<Statement>, Failure<'a>>)
        ensures
            batch_of(result) == in_order(store_outcomes(self@, logs@)),
    {
        let ghost outcomes = store_outcomes(self@, logs@);
        let mut statements: Vec<Statement> = Vec::new();
        let mut i: usize = 0;
        proof {
            assert(outcomes.take(0) =~= Seq::empty());
            assert(statements_of(statements@) =~= Seq::empty());
        }
        while i < logs.len()
            invariant
                outcomes == store_outcomes(self@, logs@),
                outcomes.len() == logs.len(),
                i <= logs.len(),
                in_order(outcomes.take(i as int)) == Ok::<Seq<StatementView>, FailureView>(
                    statements_of(statements@),
                ),
            decreases logs.len() - i,
        {
            let ghost before = statements@;
            match self.store_event(&logs[i]) {
                Err(error) => {
                    proof {
                        lemma_in_order_first_error(outcomes, i as int);
                    }
                    return Err(Failure { event: logs[i].event, error });
                },
                Ok(mut more) => {
                    let ghost added = more@;
                    statements.append(&mut more);
                    proof {
                        lemma_statements_of_add(before, added);
                        assert(outcomes.take(i + 1).drop_last() =~= outcomes.take(i as int));
                    }
                },
            }
            i = i + 1;
        }
        proof {
            assert(outcomes.take(logs.len() as int) =~= outcomes);
        }
        Ok(statements)
    }

    /// The statements of one batch: those that set the cursors of `blocks`,
    /// then those that store `logs`. With an error among them, nothing is to
    /// be run, and the error is the first in that order.
    pub fn update<'a>(&self, blocks: &[EventBlock<'a>], logs: &[Log<'a>]) -> (result: Result<
        Vec<Statement>,
        Failure<'a>,
    >)
        ensures
            batch_of(result) == in_order(
                cursor_outcomes(self@, blocks@) + store_outcomes(self@, logs@),
            ),
    {
        proof {
            lemma_in_order_add(cursor_outcomes(self@, blocks@), store_outcomes(self@, logs@));
        }
        let mut statements = match self.set_event_blocks(blocks) {
            Ok(statements) => statements,
            Err(error) => {
                return Err(error);
            },
        };
        let mut more = match self.store_events(logs) {
            Ok(more) => more,
            Err(error) => {
                return Err(error);
            },
        };
        proof {
            lemma_statements_of_add(statements@, more@);
        }
        statements.append(&mut more);
        Ok(statements)
    }

    /// The statements that remove one uncle.
    fn remove_uncle(&self, uncle: &Uncle) -> (result: Result<Vec<Statement>, Error>)
        ensures
            plan_of(result) == uncle_outcome(self@, uncle.event@, uncle.number as nat),
    {
        let name = sanitize_name(uncle.event);
        if uncle.number == 0 {
            return Err(Error::InvalidUncle);
        }
        if uncle.number > i64::MAX as u64 {
            return Err(Error::Range);
        }
        let block = uncle.number as i64;
        let parent_block = block - 1;
        let at = match self.find(name.as_str()) {
            Some(at) => at,
            None => {
                return Err(Error::UnknownEvent);
            },
        };
        let event = &self.events[at];
        proof {
            use_type_invariant(event);
        }
        let ghost tables = layout(event.descriptor().kinds());
        let mut statements: Vec<Statement> = Vec::new();
        let mut i: usize = 0;
        proof {
            assert(statements_of(statements@) =~= removals(name@, 0, block as int));
        }
        while i < event.remove_statements.len()
            invariant
                i <= event.remove_statements.len(),
                event.remove_statements@.len() == tables.len(),
                parent_block == block - 1,
                forall|k: int|
                    0 <= k < tables.len() ==> (#[trigger] event.remove_statements@[k])@
                        == delete_from(name@, k as nat),
                statements_of(statements@) == removals(name@, i as nat, block as int),
            decreases event.remove_statements.len() - i,
        {
            let mut params: Vec<SqlValue> = Vec::new();
            params.push(SqlValue::Integer(block));
            let delete = Statement {
                sql: event.remove_statements[i].clone(),
                params,
                run: Run::Execute,
            };
            let mut params: Vec<SqlValue> = Vec::new();
            params.push(SqlValue::Text(name.clone()));
            params.push(SqlValue::Integer(parent_block));
            let rewind = Statement {
                sql: String::from_str(SET_INDEXED_BLOCK),
                params,
                run: Run::Execute,
            };
            proof {
                assert(delete@.params =~= delete_rows(name@, i as nat, block as int).params);
                assert(rewind@.params =~= set_indexed(name@, block - 1).params);
                lemma_statements_of_push(statements@, delete);
                lemma_statements_of_push(statements@.push(delete), rewind);
                assert(removals(name@, (i + 1) as nat, block as int) =~= removals(
                    name@,
                    i as nat,
                    block as int,
                ).push(delete@).push(rewind@));
            }
            statements.push(delete);
            statements.push(rewind);
            i = i + 1;
        }
        Ok(statements)
    }

    /// The statements that remove `uncles`, in their order, each as
    /// [`uncle_outcome`] says: the rows of the uncle and of every later
    /// block are deleted from every table of the event, and the indexed
    /// block of the event is set to the block before the uncle. With an error
    /// among them, nothing is to be run, and the error is the first in their
    /// order.
    pub fn remove<'a>(&self, uncles: &[Uncle<'a>]) -> (result: Result<Vec<Statement>, Failure<'a>>)
        ensures
            batch_of(result) == in_order(uncle_outcomes(self@, uncles@)),
    {
        let ghost outcomes = uncle_outcomes(self@, uncles@);
        let mut statements: Vec<Statement> = Vec::new();
        let mut i: usize = 0;
        proof {
            assert(outcomes.take(0) =~= Seq::empty());
            assert(statements_of(statements@) =~= Seq::empty());
        }
        while i < uncles.len()
            invariant
                outcomes == uncle_outcomes(self@, uncles@),
                outcomes.len() == uncles.len(),
                i <= uncles.len(),
                in_order(outcomes.take(i as int)) == Ok::<Seq<StatementView>, FailureView>(
                    statements_of(statements@),
                ),
            decreases uncles.len() - i,
        {
            let ghost before = statements@;
            match self.remove_uncle(&uncles[i]) {
                Err(error) => {
                    proof {
                        lemma_in_order_first_error(outcomes, i as int);
                    }
                    return Err(Failure { event: uncles[i].event, error });
                },
                Ok(mut more) => {
                    let ghost added = more@;
                    statements.append(&mut more);
                    proof {
                        lemma_statements_of_add(before, added);
                        assert(outcomes.take(i + 1).drop_last() =~= outcomes.take(i as int));
                    }
                },
            }
            i = i + 1;
        }
        proof {
            assert(outcomes.take(uncles.len() as int) =~= outcomes);
        }
        Ok(statements)
    }
}

} // verus!
