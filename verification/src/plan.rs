//! What is to be run on the storage engine, as mathematical values.
//!
//! Each operation of the registry is described here by the statements that
//! it asks for, or by the error that it ends with.

use crate::database::{Block, EventBlock, Log, LogView, Uncle};
use crate::descriptor::{EventDescriptorView, EventFieldView};
use crate::encode::{
    cells_of, each_sized, lemma_tuple_fits, lemma_values_are_lossless, lemma_values_are_sized,
    rows_of, storage_of,
};
use crate::error::{Error, Failure, FailureView, SchemaError};
use crate::kind::KindView;
use crate::name::{is_identifier, is_name_char, lemma_sanitized_is_identifier, sanitized};
use crate::schema::{layout, SqlType};
use crate::statement::{
    column_name, create_table, delete_from, insert_into, parameter_count, statements_of,
    table_name, Run, SqlValueView, Statement, StatementView, CREATE_EVENT_BLOCK_TABLE,
    GET_EVENT_BLOCK, NEW_EVENT_BLOCK, SET_EVENT_BLOCK, SET_INDEXED_BLOCK,
};
use crate::text::{decimal, lemma_decimal_digits};
use crate::value::ValueView;
use vstd::prelude::*;

verus! {

/// The identifiers of the fields of an event, in their order.
pub open spec fn field_names(event: EventDescriptorView) -> Seq<Seq<char>> {
    event.inputs.map_values(|field: EventFieldView| sanitized(field.name))
}

/// A statement without parameters.
pub open spec fn plain(sql: Seq<char>, run: Run) -> StatementView {
    StatementView { sql, params: Seq::empty(), run }
}

/// The statements that create the tables of an event.
pub open spec fn creations(name: Seq<char>, event: EventDescriptorView) -> Seq<StatementView> {
    let tables = layout(event.kinds());
    Seq::new(
        tables.len(),
        |i: int| plain(create_table(name, i as nat, tables[i], field_names(event)), Run::Execute),
    )
}

/// The statement that gives an event its cursor, unless it has one.
pub open spec fn new_cursor(name: Seq<char>) -> StatementView {
    StatementView {
        sql: NEW_EVENT_BLOCK@,
        params: seq![SqlValueView::Text(name)],
        run: Run::Execute,
    }
}

/// The statements that insert into the tables of an event, to be prepared.
pub open spec fn insertions(name: Seq<char>, event: EventDescriptorView) -> Seq<StatementView> {
    let tables = layout(event.kinds());
    Seq::new(
        tables.len(),
        |i: int| plain(insert_into(name, i as nat, tables[i].len()), Run::Prepare),
    )
}

/// The statements that delete from the tables of an event, to be prepared.
pub open spec fn deletions(name: Seq<char>, event: EventDescriptorView) -> Seq<StatementView> {
    let tables = layout(event.kinds());
    Seq::new(tables.len(), |i: int| plain(delete_from(name, i as nat), Run::Prepare))
}

/// What registering an event takes: its tables are created, it is given a
/// cursor, and the statements that insert into and delete from its tables
/// are prepared, so that what is wrong with one shows now.
pub open spec fn preparation(name: Seq<char>, event: EventDescriptorView) -> Seq<StatementView> {
    creations(name, event) + seq![new_cursor(name)] + insertions(name, event) + deletions(
        name,
        event,
    )
}

/// What becomes of the request to register `event` under `name`: an error,
/// `Ok(false)` where the event is registered already, with the same
/// descriptor, and `Ok(true)` where it is new.
pub open spec fn registration(
    registry: Map<Seq<char>, EventDescriptorView>,
    name: Seq<char>,
    event: EventDescriptorView,
) -> Result<bool, SchemaError> {
    if !field_names(event).no_duplicates() {
        Err(SchemaError::DuplicateFieldName)
    } else if registry.contains_key(sanitized(name)) {
        if registry[sanitized(name)] == event {
            Ok(false)
        } else {
            Err(SchemaError::DescriptorMismatch)
        }
    } else if KindView::nesting_of(event.kinds()) > 1 {
        Err(SchemaError::NestedDynamicArrays)
    } else {
        Ok(true)
    }
}

/// What is to be run, or why nothing is.
pub open spec fn plan_of(result: Result<Vec<Statement>, Error>) -> Result<Seq<StatementView>, Error> {
    match result {
        Ok(statements) => Ok(statements_of(statements@)),
        Err(error) => Err(error),
    }
}

/// What one item of a batch comes to: the statements that it asks for, or
/// an error, with the name of the event of the item.
pub struct Outcome {
    pub event: Seq<char>,
    pub result: Result<Seq<StatementView>, Error>,
}

/// What is to be run for a batch, or why nothing is.
pub open spec fn batch_of(result: Result<Vec<Statement>, Failure>) -> Result<
    Seq<StatementView>,
    FailureView,
> {
    match result {
        Ok(statements) => Ok(statements_of(statements@)),
        Err(failure) => Err(failure@),
    }
}

/// The outcomes of a batch taken together: the first error in their order,
/// with the event of its item, and without an error the statements of all,
/// in their order.
pub open spec fn in_order(outcomes: Seq<Outcome>) -> Result<Seq<StatementView>, FailureView>
    decreases outcomes.len(),
{
    if outcomes.len() == 0 {
        Ok(Seq::empty())
    } else {
        match in_order(outcomes.drop_last()) {
            Err(failure) => Err(failure),
            Ok(statements) => match outcomes.last().result {
                Err(error) => Err(FailureView { event: outcomes.last().event, error }),
                Ok(more) => Ok(statements + more),
            },
        }
    }
}

/// An error behind outcomes without one is the error of the batch.
pub proof fn lemma_in_order_first_error(outcomes: Seq<Outcome>, at: int)
    requires
        0 <= at < outcomes.len(),
        in_order(outcomes.take(at)) is Ok,
        outcomes[at].result is Err,
    ensures
        in_order(outcomes) == Err::<Seq<StatementView>, FailureView>(
            FailureView { event: outcomes[at].event, error: outcomes[at].result->Err_0 },
        ),
    decreases outcomes.len(),
{
    if at == outcomes.len() - 1 {
        assert(outcomes.take(at) =~= outcomes.drop_last());
    } else {
        let before = outcomes.drop_last();
        assert(before.take(at) =~= outcomes.take(at));
        lemma_in_order_first_error(before, at);
    }
}

/// A batch with an error runs nothing.
pub proof fn lemma_in_order_fails(outcomes: Seq<Outcome>, at: int)
    requires
        0 <= at < outcomes.len(),
        outcomes[at].result is Err,
    ensures
        in_order(outcomes) is Err,
    decreases outcomes.len(),
{
    if at < outcomes.len() - 1 {
        lemma_in_order_fails(outcomes.drop_last(), at);
    }
}

/// A batch without an error runs the statements of every item.
pub proof fn lemma_in_order_succeeds(outcomes: Seq<Outcome>)
    requires
        forall|i: int| 0 <= i < outcomes.len() ==> (#[trigger] outcomes[i]).result is Ok,
    ensures
        in_order(outcomes) is Ok,
    decreases outcomes.len(),
{
    if outcomes.len() > 0 {
        let before = outcomes.drop_last();
        assert forall|i: int| 0 <= i < before.len() implies (#[trigger] before[i]).result is Ok by {
            assert(outcomes[i].result is Ok);
        }
        lemma_in_order_succeeds(before);
        assert(outcomes[outcomes.len() - 1].result is Ok);
    }
}

/// A batch behind another: the error of the first, else the error of the
/// second, else the statements of both.
pub proof fn lemma_in_order_add(first: Seq<Outcome>, second: Seq<Outcome>)
    ensures
        in_order(first + second) == match in_order(first) {
            Err(failure) => Err::<Seq<StatementView>, FailureView>(failure),
            Ok(statements) => match in_order(second) {
                Err(failure) => Err(failure),
                Ok(more) => Ok(statements + more),
            },
        },
    decreases second.len(),
{
    if second.len() == 0 {
        assert(first + second =~= first);
        if in_order(first) is Ok {
            assert(in_order(first)->Ok_0 + Seq::<StatementView>::empty() =~= in_order(first)->Ok_0);
        }
    } else {
        assert((first + second).drop_last() =~= first + second.drop_last());
        lemma_in_order_add(first, second.drop_last());
        if in_order(first) is Ok && in_order(second.drop_last()) is Ok && second.last().result
            is Ok {
            let a = in_order(first)->Ok_0;
            let b = in_order(second.drop_last())->Ok_0;
            let c = second.last().result->Ok_0;
            assert((a + b) + c =~= a + (b + c));
        }
    }
}

/// Whether a number fits the integers of the storage engine.
pub open spec fn fits(number: nat) -> bool {
    number <= i64::MAX
}

/// The statement that sets the cursor of an event.
pub open spec fn set_cursor(name: Seq<char>, block: Block) -> StatementView {
    StatementView {
        sql: SET_EVENT_BLOCK@,
        params: seq![
            SqlValueView::Text(name),
            SqlValueView::Integer(block.indexed as int),
            SqlValueView::Integer(block.finalized as int),
        ],
        run: Run::ExecuteOne,
    }
}

/// What setting the cursor of `event` to `block` takes: one statement that
/// has to change one row. An event that is not registered is an error, and
/// so is a block that does not fit.
pub open spec fn cursor_outcome(
    registry: Map<Seq<char>, EventDescriptorView>,
    event: Seq<char>,
    block: Block,
) -> Result<Seq<StatementView>, Error> {
    if !registry.contains_key(sanitized(event)) {
        Err(Error::UnknownEvent)
    } else if !fits(block.indexed as nat) || !fits(block.finalized as nat) {
        Err(Error::Range)
    } else {
        Ok(seq![set_cursor(sanitized(event), block)])
    }
}

/// The outcomes of setting the cursors of `blocks`.
pub open spec fn cursor_outcomes(
    registry: Map<Seq<char>, EventDescriptorView>,
    blocks: Seq<EventBlock>,
) -> Seq<Outcome> {
    Seq::new(
        blocks.len(),
        |i: int|
            Outcome {
                event: blocks[i].event@,
                result: cursor_outcome(registry, blocks[i].event@, blocks[i].block),
            },
    )
}

/// The cells that every row of a log begins with: the block, the index of
/// the log, the index of the transaction and the address.
pub open spec fn fixed_cells(log: LogView) -> Seq<SqlValueView> {
    seq![
        SqlValueView::Integer(log.block_number as int),
        SqlValueView::Integer(log.log_index as int),
        SqlValueView::Integer(log.transaction_index as int),
        SqlValueView::Blob(log.address),
    ]
}

/// The statement that inserts one row into the table with number `table` of
/// an event. It has to change one row.
pub open spec fn row_insert(
    event: Seq<char>,
    table: nat,
    fields: nat,
    params: Seq<SqlValueView>,
) -> StatementView {
    StatementView { sql: insert_into(event, table, fields), params, run: Run::ExecuteOne }
}

/// The statements that insert the rows of one dynamic array: one for each
/// element, in their order, with the position of the element behind the
/// fixed cells.
pub open spec fn array_inserts(
    event: Seq<char>,
    table: nat,
    fields: nat,
    fixed: Seq<SqlValueView>,
    rows: Seq<Seq<SqlValueView>>,
) -> Seq<StatementView> {
    Seq::new(
        rows.len(),
        |i: int| row_insert(event, table, fields, fixed + seq![SqlValueView::Integer(i)] + rows[i]),
    )
}

/// The statements that insert the rows of the dynamic arrays of a log: those
/// of the first array go to the table with number 1, and so on.
pub open spec fn arrays_inserts(
    event: Seq<char>,
    tables: Seq<Seq<SqlType>>,
    fixed: Seq<SqlValueView>,
    arrays: Seq<Seq<Seq<SqlValueView>>>,
) -> Seq<StatementView>
    decreases arrays.len(),
{
    if arrays.len() == 0 {
        Seq::empty()
    } else {
        arrays_inserts(event, tables, fixed, arrays.drop_last()) + array_inserts(
            event,
            arrays.len(),
            tables[arrays.len() as int].len(),
            fixed,
            arrays.last(),
        )
    }
}

/// The number of rows of all the arrays together.
pub open spec fn row_count(arrays: Seq<Seq<Seq<SqlValueView>>>) -> nat
    decreases arrays.len(),
{
    if arrays.len() == 0 {
        0
    } else {
        row_count(arrays.drop_last()) + arrays.last().len()
    }
}

/// The statements that store a log of the event with the identifier `event`
/// and the descriptor `descriptor`: one row in the first table, then one
/// row for each element of each dynamic array.
pub open spec fn log_inserts(
    event: Seq<char>,
    descriptor: EventDescriptorView,
    log: LogView,
) -> Seq<StatementView> {
    let tables = layout(descriptor.kinds());
    seq![row_insert(event, 0, tables[0].len(), fixed_cells(log) + cells_of(log.fields))]
        + arrays_inserts(event, tables, fixed_cells(log), rows_of(log.fields))
}

/// Whether the values of a log are, one by one, well-formed values of the
/// kinds of the fields of its event.
pub open spec fn log_matches(descriptor: EventDescriptorView, log: LogView) -> bool {
    &&& log.fields.len() == descriptor.inputs.len()
    &&& forall|i: int|
        0 <= i < log.fields.len() ==> (#[trigger] log.fields[i]).has_kind(
            descriptor.inputs[i].kind,
        )
}

/// Whether the position of every element of every dynamic array fits the
/// integers of the storage engine.
pub open spec fn positions_fit(arrays: Seq<Seq<Seq<SqlValueView>>>) -> bool {
    forall|j: int| 0 <= j < arrays.len() ==> (#[trigger] arrays[j]).len() <= i64::MAX + 1
}

/// What storing a log takes: the statements of [`log_inserts`]. A log of an
/// event that is not registered is an error; so is one whose values do not
/// match the descriptor, and one with a number that does not fit.
pub open spec fn store_outcome(
    registry: Map<Seq<char>, EventDescriptorView>,
    log: LogView,
) -> Result<Seq<StatementView>, Error> {
    let name = sanitized(log.event);
    if !registry.contains_key(name) {
        Err(Error::UnknownEvent)
    } else if !log_matches(registry[name], log) {
        Err(Error::ValueMismatch)
    } else if !fits(log.block_number) || !fits(log.log_index) || !fits(log.transaction_index)
        || !positions_fit(rows_of(log.fields)) {
        Err(Error::Range)
    } else {
        Ok(log_inserts(name, registry[name], log))
    }
}

/// The outcomes of storing `logs`.
pub open spec fn store_outcomes(
    registry: Map<Seq<char>, EventDescriptorView>,
    logs: Seq<Log>,
) -> Seq<Outcome> {
    Seq::new(
        logs.len(),
        |i: int| Outcome { event: logs[i].event@, result: store_outcome(registry, logs[i]@) },
    )
}

/// The statement that deletes from a table of an event the rows of the
/// block `number` and of every later block.
pub open spec fn delete_rows(name: Seq<char>, table: nat, number: int) -> StatementView {
    StatementView {
        sql: delete_from(name, table),
        params: seq![SqlValueView::Integer(number)],
        run: Run::Execute,
    }
}

/// The statement that sets the indexed block of an event.
pub open spec fn set_indexed(name: Seq<char>, number: int) -> StatementView {
    StatementView {
        sql: SET_INDEXED_BLOCK@,
        params: seq![SqlValueView::Text(name), SqlValueView::Integer(number)],
        run: Run::Execute,
    }
}

/// The statements that remove the block `number` and every later block from
/// the first `tables` tables of an event: for each table, its rows from that
/// block on are deleted and the indexed block of the event is set to the
/// block before.
pub open spec fn removals(name: Seq<char>, tables: nat, number: int) -> Seq<StatementView>
    decreases tables,
{
    if tables == 0 {
        Seq::empty()
    } else {
        removals(name, (tables - 1) as nat, number) + seq![
            delete_rows(name, (tables - 1) as nat, number),
            set_indexed(name, number - 1),
        ]
    }
}

/// What removing the uncle `number` of `event` takes: the statements of
/// [`removals`] for all tables of the event. Block 0 is no uncle; a block
/// that does not fit and an event that is not registered are errors too.
pub open spec fn uncle_outcome(
    registry: Map<Seq<char>, EventDescriptorView>,
    event: Seq<char>,
    number: nat,
) -> Result<Seq<StatementView>, Error> {
    let name = sanitized(event);
    if number == 0 {
        Err(Error::InvalidUncle)
    } else if !fits(number) {
        Err(Error::Range)
    } else if !registry.contains_key(name) {
        Err(Error::UnknownEvent)
    } else {
        Ok(removals(name, layout(registry[name].kinds()).len(), number as int))
    }
}

/// The outcomes of removing `uncles`.
pub open spec fn uncle_outcomes(
    registry: Map<Seq<char>, EventDescriptorView>,
    uncles: Seq<Uncle>,
) -> Seq<Outcome> {
    Seq::new(
        uncles.len(),
        |i: int|
            Outcome {
                event: uncles[i].event@,
                result: uncle_outcome(registry, uncles[i].event@, uncles[i].number as nat),
            },
    )
}

/// The statement that reads the cursor of an event.
pub open spec fn cursor_query(name: Seq<char>) -> StatementView {
    StatementView { sql: GET_EVENT_BLOCK@, params: seq![SqlValueView::Text(name)], run: Run::Query }
}

/// What a new connection takes before anything else: the table of the
/// cursors is created, and the statements on it are prepared.
pub open spec fn foundation() -> Seq<StatementView> {
    seq![
        plain(CREATE_EVENT_BLOCK_TABLE@, Run::Execute),
        plain(GET_EVENT_BLOCK@, Run::Prepare),
        plain(SET_EVENT_BLOCK@, Run::Prepare),
        plain(SET_INDEXED_BLOCK@, Run::Prepare),
    ]
}

/// Registering an event is idempotent. Once a new event has been taken in,
/// the request to register it again under the same name, with the same
/// descriptor, asks for nothing and leaves the registry as it is, and the
/// request to register another descriptor under that name is refused.
pub proof fn lemma_registration_idempotent(
    registry: Map<Seq<char>, EventDescriptorView>,
    name: Seq<char>,
    event: EventDescriptorView,
    other: EventDescriptorView,
)
    requires
        registration(registry, name, event) == Ok::<bool, SchemaError>(true),
    ensures
        registration(registry.insert(sanitized(name), event), name, event) == Ok::<
            bool,
            SchemaError,
        >(false),
        other != event ==> registration(registry.insert(sanitized(name), event), name, other)
            is Err,
{
}

/// Under a name that is taken, the same descriptor asks for nothing, however
/// often it is registered, and any other descriptor is refused.
pub proof fn lemma_registration_of_known(
    registry: Map<Seq<char>, EventDescriptorView>,
    name: Seq<char>,
    event: EventDescriptorView,
    other: EventDescriptorView,
)
    requires
        registration(registry, name, event) == Ok::<bool, SchemaError>(false),
    ensures
        registry[sanitized(name)] == event,
        other != event ==> registration(registry, name, other) is Err,
{
}

/// Block 0 is never removed: a batch of uncles with block 0 among them runs
/// nothing, whatever the events and the registry.
pub proof fn lemma_uncle_zero_fails(
    registry: Map<Seq<char>, EventDescriptorView>,
    uncles: Seq<Uncle>,
    at: int,
)
    requires
        0 <= at < uncles.len(),
        uncles[at].number == 0,
    ensures
        uncle_outcome(registry, uncles[at].event@, 0) == Err::<Seq<StatementView>, Error>(
            Error::InvalidUncle,
        ),
        in_order(uncle_outcomes(registry, uncles)) is Err,
{
    lemma_in_order_fails(uncle_outcomes(registry, uncles), at);
}

/// Removing a block takes two statements for each table of the event: the
/// first deletes the rows of the table from that block on, the second sets
/// the indexed block of the event to the block before.
pub proof fn lemma_removals(name: Seq<char>, tables: nat, number: int)
    ensures
        removals(name, tables, number).len() == 2 * tables,
        forall|i: int|
            0 <= i < tables ==> {
                &&& #[trigger] removals(name, tables, number)[2 * i] == delete_rows(
                    name,
                    i as nat,
                    number,
                )
                &&& removals(name, tables, number)[2 * i + 1] == set_indexed(name, number - 1)
            },
    decreases tables,
{
    if tables > 0 {
        let before = removals(name, (tables - 1) as nat, number);
        lemma_removals(name, (tables - 1) as nat, number);
        assert forall|i: int| 0 <= i < tables implies {
            &&& #[trigger] removals(name, tables, number)[2 * i] == delete_rows(
                name,
                i as nat,
                number,
            )
            &&& removals(name, tables, number)[2 * i + 1] == set_indexed(name, number - 1)
        } by {
            if i < tables - 1 {
                assert(before[2 * i] == delete_rows(name, i as nat, number));
                assert(before[2 * i + 1] == set_indexed(name, number - 1));
            }
        }
    }
}

/// A log that matches its event fills the tables of the event: it has one
/// dynamic array for each table but the first, its row in the first table
/// has one value for each parameter of the statement that inserts there
/// and one cell of the right storage for each column, and so has the row
/// of each element of each array in the table of that array.
pub proof fn lemma_log_fills_tables(descriptor: EventDescriptorView, log: LogView)
    requires
        log_matches(descriptor, log),
    ensures
        ({
            let tables = layout(descriptor.kinds());
            let fixed = fixed_cells(log);
            let arrays = rows_of(log.fields);
            &&& arrays.len() + 1 == tables.len()
            &&& storage_of(cells_of(log.fields)) == tables[0]
            &&& (fixed + cells_of(log.fields)).len() == parameter_count(0, tables[0].len())
            &&& forall|j: int, i: int|
                0 <= j < arrays.len() && 0 <= i < arrays[j].len() ==> {
                    &&& storage_of(#[trigger] arrays[j][i]) == tables[j + 1]
                    &&& (fixed + seq![SqlValueView::Integer(i)] + arrays[j][i]).len()
                        == parameter_count((j + 1) as nat, tables[j + 1].len())
                }
        }),
{
    let fields = log.fields;
    ValueView::lemma_all_well_formed(fields);
    ValueView::lemma_kinds_of(fields);
    lemma_tuple_fits(fields);
    assert(ValueView::kinds_of(fields) =~= descriptor.kinds());
    let tables = layout(descriptor.kinds());
    let arrays = rows_of(fields);
    assert forall|j: int, i: int| 0 <= j < arrays.len() && 0 <= i < arrays[j].len() implies {
        &&& storage_of(#[trigger] arrays[j][i]) == tables[j + 1]
        &&& (fixed_cells(log) + seq![SqlValueView::Integer(i)] + arrays[j][i]).len()
            == parameter_count((j + 1) as nat, tables[j + 1].len())
    } by {
        assert(storage_of(arrays[j][i]).len() == arrays[j][i].len());
    }
    assert(storage_of(cells_of(fields)).len() == cells_of(fields).len());
}

/// A log is stored with one statement for its row in the first table and
/// one for each element of each of its dynamic arrays.
pub proof fn lemma_log_inserts_len(event: Seq<char>, descriptor: EventDescriptorView, log: LogView)
    ensures
        log_inserts(event, descriptor, log).len() == 1 + row_count(rows_of(log.fields)),
{
    lemma_arrays_inserts_len(
        event,
        layout(descriptor.kinds()),
        fixed_cells(log),
        rows_of(log.fields),
    );
}

/// The rows of dynamic arrays are inserted with one statement each.
pub proof fn lemma_arrays_inserts_len(
    event: Seq<char>,
    tables: Seq<Seq<SqlType>>,
    fixed: Seq<SqlValueView>,
    arrays: Seq<Seq<Seq<SqlValueView>>>,
)
    ensures
        arrays_inserts(event, tables, fixed, arrays).len() == row_count(arrays),
    decreases arrays.len(),
{
    if arrays.len() > 0 {
        lemma_arrays_inserts_len(event, tables, fixed, arrays.drop_last());
    }
}

/// No name reaches a statement as it was given: the name of every table of
/// an event is an identifier, whatever the name of the event.
pub proof fn lemma_table_name_is_identifier(name: Seq<char>, index: nat)
    ensures
        is_identifier(table_name(sanitized(name), index)),
{
    reveal_strlit("_");
    lemma_sanitized_is_identifier(name);
    lemma_decimal_digits(index);
    let event = sanitized(name);
    let table = table_name(event, index);
    assert forall|i: int| 0 <= i < table.len() implies is_name_char(#[trigger] table[i]) by {
        if i < event.len() {
            assert(table[i] == event[i]);
        } else if i == event.len() {
            assert(table[i] == '_');
        } else {
            assert(table[i] == decimal(index)[i - event.len() - 1]);
        }
    }
    assert(table[0] == event[0]);
}

/// The name of every column of the fields of an event is an identifier,
/// whatever the names of the fields.
pub proof fn lemma_column_name_is_identifier(event: EventDescriptorView, named: bool, index: nat)
    requires
        named ==> index < event.inputs.len(),
    ensures
        is_identifier(column_name(field_names(event), named, index)),
{
    if named {
        lemma_sanitized_is_identifier(event.inputs[index as int].name);
    } else {
        reveal_strlit("c");
        lemma_decimal_digits(index);
        let column = column_name(field_names(event), named, index);
        assert forall|i: int| 0 <= i < column.len() implies is_name_char(#[trigger] column[i]) by {
            if i > 0 {
                assert(column[i] == decimal(index)[i - 1]);
            }
        }
    }
}

/// Nothing is lost when a log is stored: two logs that match an event have
/// the same values where their rows are the same.
pub proof fn lemma_log_is_lossless(descriptor: EventDescriptorView, left: LogView, right: LogView)
    requires
        KindView::nesting_of(descriptor.kinds()) <= 1,
        log_matches(descriptor, left),
        log_matches(descriptor, right),
        each_sized(left.fields),
        each_sized(right.fields),
        cells_of(left.fields) == cells_of(right.fields),
        rows_of(left.fields) == rows_of(right.fields),
    ensures
        left.fields == right.fields,
{
    ValueView::lemma_all_well_formed(left.fields);
    ValueView::lemma_all_well_formed(right.fields);
    ValueView::lemma_kinds_of(left.fields);
    ValueView::lemma_kinds_of(right.fields);
    assert(ValueView::kinds_of(left.fields) =~= descriptor.kinds());
    assert(ValueView::kinds_of(right.fields) =~= descriptor.kinds());
    lemma_values_are_lossless(left.fields, right.fields);
}

/// The values of every log of the library have the sizes of their kinds.
pub proof fn lemma_log_is_sized(log: Log)
    ensures
        each_sized(log@.fields),
{
    lemma_values_are_sized(log.fields@);
}

} // verus!
