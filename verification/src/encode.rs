//! From the values of a log to the rows that hold them.
//!
//! The values are walked as the kinds are when the tables are laid out: a
//! scalar outside every dynamic array is a cell of the one row of the first
//! table, and each element of a dynamic array is a row of the table of that
//! array, with one cell for each scalar of the element.

use crate::kind::{repeated, KindView};
use crate::schema::{
    arrays, arrays_of, columns, columns_of, lemma_flat_opens_nothing, lemma_nesting_of, storage,
    SqlType,
};
use crate::statement::{values_of, SqlValue, SqlValueView};
use crate::value::{copy_bytes, Address, ExternalFunction, Value, ValueView};
use crate::word::{
    is_signed_word, is_unsigned_word, lemma_signed_word_is_lossless,
    lemma_unsigned_word_is_lossless, lemma_word_base, signed_word, unsigned_word, word,
};
use vstd::prelude::*;
use vstd::string::StrSliceExecFns;
use vstd::utf8::{encode_utf8, encode_utf8_decode_utf8};

verus! {

/// The cell that holds a scalar.
///
/// An integer is the 32 bytes of its two's complement, the most significant
/// first. A boolean is the integer 0 or 1. An address and a byte string are
/// their bytes, a function is the bytes of its address and then those of
/// its selector, and a text is its bytes in UTF-8.
pub open spec fn cell(value: ValueView) -> SqlValueView {
    match value {
        ValueView::SignedInt(_, number) => SqlValueView::Blob(word(number)),
        ValueView::UnsignedInt(_, number) => SqlValueView::Blob(word(number)),
        ValueView::Address(bytes) => SqlValueView::Blob(bytes),
        ValueView::Bool(truth) => SqlValueView::Integer(
            if truth {
                1
            } else {
                0
            },
        ),
        ValueView::FixedBytes(bytes) => SqlValueView::Blob(bytes),
        ValueView::Function(address, selector) => SqlValueView::Blob(address + selector),
        ValueView::Bytes(bytes) => SqlValueView::Blob(bytes),
        ValueView::String(text) => SqlValueView::Blob(encode_utf8(text)),
        _ => SqlValueView::Integer(0),
    }
}

/// The cells that `value` adds to the row it stands in: one for each of its
/// scalars outside a dynamic array.
pub open spec fn cells(value: ValueView) -> Seq<SqlValueView>
    decreases value,
{
    match value {
        ValueView::Tuple(values) => cells_of(values),
        ValueView::FixedArray(_, values) => cells_of(values),
        ValueView::DynamicArray(_, _) => Seq::empty(),
        _ => seq![cell(value)],
    }
}

/// The cells of `values`, one value after the other.
pub open spec fn cells_of(values: Seq<ValueView>) -> Seq<SqlValueView>
    decreases values,
{
    if values.len() == 0 {
        Seq::empty()
    } else {
        cells_of(values.drop_last()) + cells(values.last())
    }
}

/// The rows of the elements of a dynamic array: one row for each element, in
/// their order.
pub open spec fn element_rows(values: Seq<ValueView>) -> Seq<Seq<SqlValueView>>
    decreases values,
{
    if values.len() == 0 {
        Seq::empty()
    } else {
        element_rows(values.drop_last()).push(cells(values.last()))
    }
}

/// The rows of the dynamic arrays of `value`: for each array, in the order
/// in which a walk meets them, the rows of its elements.
pub open spec fn rows(value: ValueView) -> Seq<Seq<Seq<SqlValueView>>>
    decreases value,
{
    match value {
        ValueView::Tuple(values) => rows_of(values),
        ValueView::FixedArray(_, values) => rows_of(values),
        ValueView::DynamicArray(_, values) => seq![element_rows(values)],
        _ => Seq::empty(),
    }
}

/// The rows of the dynamic arrays of `values`, one value after the other.
pub open spec fn rows_of(values: Seq<ValueView>) -> Seq<Seq<Seq<SqlValueView>>>
    decreases values,
{
    if values.len() == 0 {
        Seq::empty()
    } else {
        rows_of(values.drop_last()) + rows(values.last())
    }
}

/// The rows of a sequence as mathematical values.
pub open spec fn rows_view(rows: Seq<Vec<SqlValue>>) -> Seq<Seq<SqlValueView>> {
    rows.map_values(|row: Vec<SqlValue>| values_of(row@))
}

/// The rows of each table of a sequence as mathematical values.
pub open spec fn tables_view(tables: Seq<Vec<Vec<SqlValue>>>) -> Seq<Seq<Seq<SqlValueView>>> {
    tables.map_values(|rows: Vec<Vec<SqlValue>>| rows_view(rows@))
}

/// How each cell of a row is stored.
pub open spec fn storage_of(row: Seq<SqlValueView>) -> Seq<SqlType> {
    row.map_values(|value: SqlValueView| value.storage())
}

/// The bytes of an address.
pub fn address_bytes(address: &Address) -> (bytes: Vec<u8>)
    ensures
        bytes@ == address@,
{
    let mut bytes: Vec<u8> = Vec::new();
    let mut i: usize = 0;
    while i < 20
        invariant
            i <= 20,
            bytes@ == address@.take(i as int),
        decreases 20 - i,
    {
        bytes.push(address.0[i]);
        assert(bytes@ =~= address@.take(i + 1));
        i = i + 1;
    }
    assert(address@.take(20) =~= address@);
    bytes
}

/// The bytes of the address of a function and then those of its selector.
fn function_bytes(function: &ExternalFunction) -> (bytes: Vec<u8>)
    ensures
        bytes@ == function.address@ + function.selector@,
{
    let mut bytes = address_bytes(&function.address);
    let mut i: usize = 0;
    while i < 4
        invariant
            i <= 4,
            bytes@ == function.address@ + function.selector@.take(i as int),
        decreases 4 - i,
    {
        bytes.push(function.selector.0[i]);
        assert(bytes@ =~= function.address@ + function.selector@.take(i + 1));
        i = i + 1;
    }
    assert(function.selector@.take(4) =~= function.selector@);
    bytes
}

/// The cell that holds a scalar.
fn encode_scalar(value: &Value) -> (encoded: SqlValue)
    requires
        value@.is_scalar(),
    ensures
        encoded@ == cell(value@),
{
    proof {
        lemma_word_base();
    }
    match value {
        Value::SignedInt(number) => SqlValue::Blob(signed_word(number.high, number.low)),
        Value::UnsignedInt(number) => SqlValue::Blob(unsigned_word(number.high, number.low)),
        Value::Address(address) => SqlValue::Blob(address_bytes(address)),
        Value::Bool(truth) => SqlValue::Integer(
            if *truth {
                1
            } else {
                0
            },
        ),
        Value::FixedBytes(bytes) => SqlValue::Blob(copy_bytes(bytes)),
        Value::Function(function) => SqlValue::Blob(function_bytes(function)),
        Value::Bytes(bytes) => SqlValue::Blob(copy_bytes(bytes)),
        Value::String(text) => SqlValue::Blob(text.as_str().as_bytes_vec()),
        _ => SqlValue::Integer(0),
    }
}

/// Puts behind `row` the cells of `value`.
pub fn push_cells(row: &mut Vec<SqlValue>, value: &Value)
    ensures
        values_of(final(row)@) == values_of(old(row)@) + cells(value@),
    decreases value, 1nat,
{
    match value {
        Value::Tuple(values) => push_cells_of(row, values),
        Value::FixedArray(_, values) => push_cells_of(row, values),
        Value::DynamicArray(_, _) => {
            assert(values_of(row@) =~= values_of(old(row)@) + cells(value@));
        },
        _ => {
            let encoded = encode_scalar(value);
            row.push(encoded);
            assert(values_of(row@) =~= values_of(old(row)@) + cells(value@));
        },
    }
}

fn push_cells_of(row: &mut Vec<SqlValue>, values: &Vec<Value>)
    ensures
        values_of(final(row)@) == values_of(old(row)@) + cells_of(Value::models(values@)),
    decreases values, 0nat,
{
    let ghost models = Value::models(values@);
    let mut i: usize = 0;
    proof {
        Value::lemma_models(values@);
        assert(models.take(0) =~= Seq::empty());
        assert(values_of(row@) =~= values_of(old(row)@) + cells_of(models.take(0)));
    }
    while i < values.len()
        invariant
            models == Value::models(values@),
            models.len() == values.len(),
            i <= values.len(),
            values_of(row@) == values_of(old(row)@) + cells_of(models.take(i as int)),
        decreases values.len() - i,
    {
        push_cells(row, &values[i]);
        proof {
            Value::lemma_models(values@);
            let next = models.take(i + 1);
            assert(next.drop_last() =~= models.take(i as int));
            assert(next.last() == values@[i as int].model());
            assert(values_of(row@) =~= values_of(old(row)@) + cells_of(next));
        }
        i = i + 1;
    }
    proof {
        assert(models.take(values.len() as int) =~= models);
    }
}

/// The rows of the elements of a dynamic array.
fn encode_elements(values: &Vec<Value>) -> (encoded: Vec<Vec<SqlValue>>)
    ensures
        rows_view(encoded@) == element_rows(Value::models(values@)),
{
    let ghost models = Value::models(values@);
    let mut encoded: Vec<Vec<SqlValue>> = Vec::new();
    let mut i: usize = 0;
    proof {
        Value::lemma_models(values@);
        assert(models.take(0) =~= Seq::empty());
        assert(rows_view(encoded@) =~= element_rows(models.take(0)));
    }
    while i < values.len()
        invariant
            models == Value::models(values@),
            models.len() == values.len(),
            i <= values.len(),
            rows_view(encoded@) == element_rows(models.take(i as int)),
        decreases values.len() - i,
    {
        let mut row: Vec<SqlValue> = Vec::new();
        push_cells(&mut row, &values[i]);
        let ghost before = rows_view(encoded@);
        encoded.push(row);
        proof {
            Value::lemma_models(values@);
            let next = models.take(i + 1);
            assert(next.drop_last() =~= models.take(i as int));
            assert(next.last() == values@[i as int].model());
            assert(values_of(row@) =~= cells(next.last()));
            assert(rows_view(encoded@) =~= before.push(values_of(row@)));
        }
        i = i + 1;
    }
    proof {
        assert(models.take(values.len() as int) =~= models);
    }
    encoded
}

/// Puts behind `tables` the rows of the dynamic arrays of `value`.
pub fn push_rows(tables: &mut Vec<Vec<Vec<SqlValue>>>, value: &Value)
    ensures
        tables_view(final(tables)@) == tables_view(old(tables)@) + rows(value@),
    decreases value, 1nat,
{
    match value {
        Value::Tuple(values) => push_rows_of(tables, values),
        Value::FixedArray(_, values) => push_rows_of(tables, values),
        Value::DynamicArray(_, values) => {
            let encoded = encode_elements(values);
            tables.push(encoded);
            assert(tables_view(tables@) =~= tables_view(old(tables)@) + rows(value@));
        },
        _ => {
            assert(tables_view(tables@) =~= tables_view(old(tables)@) + rows(value@));
        },
    }
}

fn push_rows_of(tables: &mut Vec<Vec<Vec<SqlValue>>>, values: &Vec<Value>)
    ensures
        tables_view(final(tables)@) == tables_view(old(tables)@) + rows_of(
            Value::models(values@),
        ),
    decreases values, 0nat,
{
    let ghost models = Value::models(values@);
    let mut i: usize = 0;
    proof {
        Value::lemma_models(values@);
        assert(models.take(0) =~= Seq::empty());
        assert(tables_view(tables@) =~= tables_view(old(tables)@) + rows_of(models.take(0)));
    }
    while i < values.len()
        invariant
            models == Value::models(values@),
            models.len() == values.len(),
            i <= values.len(),
            tables_view(tables@) == tables_view(old(tables)@) + rows_of(models.take(i as int)),
        decreases values.len() - i,
    {
        push_rows(tables, &values[i]);
        proof {
            Value::lemma_models(values@);
            let next = models.take(i + 1);
            assert(next.drop_last() =~= models.take(i as int));
            assert(next.last() == values@[i as int].model());
            assert(tables_view(tables@) =~= tables_view(old(tables)@) + rows_of(next));
        }
        i = i + 1;
    }
    proof {
        assert(models.take(values.len() as int) =~= models);
    }
}

/// A dynamic array has one row for each of its elements, in their order,
/// with the cells of the element.
pub proof fn lemma_element_rows(values: Seq<ValueView>)
    ensures
        element_rows(values).len() == values.len(),
        forall|i: int|
            0 <= i < values.len() ==> #[trigger] element_rows(values)[i] == cells(values[i]),
    decreases values.len(),
{
    if values.len() > 0 {
        let before = values.drop_last();
        lemma_element_rows(before);
        assert forall|i: int| 0 <= i < values.len() implies #[trigger] element_rows(values)[i]
            == cells(values[i]) by {
            if i < values.len() - 1 {
                assert(element_rows(before)[i] == cells(before[i]));
            }
        }
    }
}

/// Whether the rows of each dynamic array have the columns of its table:
/// there are as many arrays as tables, and each row of an array has a cell
/// of the right storage for each column of the table of that array.
pub open spec fn rows_fit(rows: Seq<Seq<Seq<SqlValueView>>>, tables: Seq<Seq<SqlType>>) -> bool {
    &&& rows.len() == tables.len()
    &&& forall|j: int, i: int|
        0 <= j < rows.len() && 0 <= i < rows[j].len() ==> storage_of(#[trigger] rows[j][i])
            == tables[j]
}

/// The storage of cells put together is the storage of each, put together.
pub proof fn lemma_storage_of_add(left: Seq<SqlValueView>, right: Seq<SqlValueView>)
    ensures
        storage_of(left + right) == storage_of(left) + storage_of(right),
{
    assert(storage_of(left + right) =~= storage_of(left) + storage_of(right));
}

/// Rows that fit their tables, put behind others that fit theirs, fit the
/// tables put together.
pub proof fn lemma_rows_fit_add(
    left: Seq<Seq<Seq<SqlValueView>>>,
    left_tables: Seq<Seq<SqlType>>,
    right: Seq<Seq<Seq<SqlValueView>>>,
    right_tables: Seq<Seq<SqlType>>,
)
    requires
        rows_fit(left, left_tables),
        rows_fit(right, right_tables),
    ensures
        rows_fit(left + right, left_tables + right_tables),
{
    let both = left + right;
    let tables = left_tables + right_tables;
    assert forall|j: int, i: int| 0 <= j < both.len() && 0 <= i < both[j].len() implies storage_of(
        #[trigger] both[j][i],
    ) == tables[j] by {
        if j < left.len() {
            assert(storage_of(left[j][i]) == left_tables[j]);
        } else {
            assert(storage_of(right[j - left.len()][i]) == right_tables[j - left.len()]);
        }
    }
}

/// The values of a log are walked as the kinds of its event are: a value of
/// a kind has a cell of the right storage for each column of the kind, and
/// rows that fit the tables that the kind opens.
pub proof fn lemma_value_fits(value: ValueView, kind: KindView)
    requires
        value.has_kind(kind),
    ensures
        storage_of(cells(value)) == columns(kind),
        rows_fit(rows(value), arrays(kind)),
    decreases value, 1nat,
{
    match value {
        ValueView::Tuple(values) => {
            lemma_tuple_fits(values);
        },
        ValueView::FixedArray(element, values) => {
            lemma_elements_fit(values, element);
        },
        ValueView::DynamicArray(element, values) => {
            lemma_elements_fit(values, element);
            assert(storage_of(cells(value)) =~= columns(kind));
            assert(rows(value)[0] == element_rows(values));
        },
        _ => {
            assert(storage_of(cells(value)) =~= columns(kind));
        },
    }
}

/// Well-formed values have the columns and fit the tables of their kinds.
pub proof fn lemma_tuple_fits(values: Seq<ValueView>)
    requires
        ValueView::all_well_formed(values),
    ensures
        storage_of(cells_of(values)) == columns_of(ValueView::kinds_of(values)),
        rows_fit(rows_of(values), arrays_of(ValueView::kinds_of(values))),
    decreases values, 0nat,
{
    if values.len() == 0 {
        assert(storage_of(cells_of(values)) =~= columns_of(ValueView::kinds_of(values)));
    } else {
        let before = values.drop_last();
        let last = values.last();
        lemma_tuple_fits(before);
        lemma_value_fits(last, last.kind());
        let kinds = ValueView::kinds_of(values);
        assert(kinds.drop_last() =~= ValueView::kinds_of(before));
        assert(kinds.last() == last.kind());
        lemma_storage_of_add(cells_of(before), cells(last));
        lemma_rows_fit_add(
            rows_of(before),
            arrays_of(ValueView::kinds_of(before)),
            rows(last),
            arrays(last.kind()),
        );
    }
}

/// Values of one kind have the columns and fit the tables of as many copies
/// of the kind, and each has the columns of the kind.
pub proof fn lemma_elements_fit(values: Seq<ValueView>, kind: KindView)
    requires
        ValueView::all_of_kind(values, kind),
    ensures
        storage_of(cells_of(values)) == repeated(values.len(), columns(kind)),
        rows_fit(rows_of(values), repeated(values.len(), arrays(kind))),
        element_rows(values).len() == values.len(),
        forall|i: int|
            0 <= i < values.len() ==> storage_of(#[trigger] element_rows(values)[i]) == columns(
                kind,
            ),
    decreases values, 0nat,
{
    if values.len() == 0 {
        assert(storage_of(cells_of(values)) =~= repeated(values.len(), columns(kind)));
    } else {
        let before = values.drop_last();
        let last = values.last();
        lemma_elements_fit(before, kind);
        lemma_value_fits(last, kind);
        lemma_storage_of_add(cells_of(before), cells(last));
        lemma_rows_fit_add(
            rows_of(before),
            repeated(before.len(), arrays(kind)),
            rows(last),
            arrays(kind),
        );
        assert forall|i: int| 0 <= i < values.len() implies storage_of(
            #[trigger] element_rows(values)[i],
        ) == columns(kind) by {
            if i < values.len() - 1 {
                assert(element_rows(values)[i] == element_rows(before)[i]);
            }
        }
    }
}

/// Whether a scalar has the size of its kind: an integer has 256 bits, an
/// address 20 bytes and a selector 4.
pub open spec fn sized(value: ValueView) -> bool {
    match value {
        ValueView::SignedInt(_, number) => is_signed_word(number),
        ValueView::UnsignedInt(_, number) => is_unsigned_word(number),
        ValueView::Address(bytes) => bytes.len() == 20,
        ValueView::Function(address, selector) => address.len() == 20 && selector.len() == 4,
        _ => true,
    }
}

/// Every scalar of the library has the size of its kind.
pub proof fn lemma_scalars_are_sized(value: Value)
    requires
        value@.is_scalar(),
    ensures
        sized(value@),
{
    lemma_word_base();
    match value {
        Value::SignedInt(number) => {
            let high = number.high as int;
            let low = number.low as int;
            let base = crate::value::word_base();
            assert(-(base * base) <= 2 * (high * base + low) < base * base) by (nonlinear_arith)
                requires
                    -base <= 2 * high,
                    2 * high + 2 <= base,
                    0 <= low < base,
            ;
        },
        Value::UnsignedInt(number) => {
            let high = number.high as int;
            let low = number.low as int;
            let base = crate::value::word_base();
            assert(0 <= high * base + low < base * base) by (nonlinear_arith)
                requires
                    0 <= high < base,
                    0 <= low < base,
            ;
        },
        _ => {},
    }
}

/// Nothing is lost in a cell: scalars of one kind that are held by the same
/// cell are the same.
pub proof fn lemma_cell_is_lossless(left: ValueView, right: ValueView)
    requires
        left.is_scalar(),
        right.is_scalar(),
        left.kind() == right.kind(),
        sized(left),
        sized(right),
        cell(left) == cell(right),
    ensures
        left == right,
{
    match (left, right) {
        (ValueView::SignedInt(_, a), ValueView::SignedInt(_, b)) => {
            lemma_signed_word_is_lossless(a, b);
        },
        (ValueView::UnsignedInt(_, a), ValueView::UnsignedInt(_, b)) => {
            lemma_unsigned_word_is_lossless(a, b);
        },
        (ValueView::Function(a, s), ValueView::Function(b, t)) => {
            assert(a =~= (a + s).subrange(0, 20));
            assert(b =~= (b + t).subrange(0, 20));
            assert(s =~= (a + s).subrange(20, 24));
            assert(t =~= (b + t).subrange(20, 24));
        },
        (ValueView::String(a), ValueView::String(b)) => {
            encode_utf8_decode_utf8(a);
            encode_utf8_decode_utf8(b);
        },
        _ => {},
    }
}

/// Whether every scalar in a value has the size of its kind.
pub open spec fn all_sized(value: ValueView) -> bool
    decreases value,
{
    match value {
        ValueView::Tuple(values) => each_sized(values),
        ValueView::FixedArray(_, values) => each_sized(values),
        ValueView::DynamicArray(_, values) => each_sized(values),
        _ => sized(value),
    }
}

/// Whether every scalar in each of the values has the size of its kind.
pub open spec fn each_sized(values: Seq<ValueView>) -> bool
    decreases values,
{
    values.len() == 0 || (each_sized(values.drop_last()) && all_sized(values.last()))
}

/// Parts of equal lengths that make the same whole are the same.
proof fn lemma_same_parts<T>(left: Seq<T>, more: Seq<T>, right: Seq<T>, other: Seq<T>)
    requires
        left + more == right + other,
        more.len() == other.len(),
    ensures
        left == right,
        more == other,
{
    let whole = left + more;
    assert(whole.len() == left.len() + more.len());
    assert((right + other).len() == right.len() + other.len());
    assert(left.len() == right.len());
    assert(left =~= whole.subrange(0, left.len() as int));
    assert(right =~= whole.subrange(0, left.len() as int));
    assert(more =~= whole.subrange(left.len() as int, whole.len() as int));
    assert(other =~= whole.subrange(left.len() as int, whole.len() as int));
}

/// Nothing is lost in the rows of a log. Two values of one kind, in which no
/// dynamic array stands inside another, are the same where they have the
/// same cells and the same rows.
pub proof fn lemma_value_is_lossless(left: ValueView, right: ValueView, kind: KindView)
    requires
        left.has_kind(kind),
        right.has_kind(kind),
        kind.nesting() <= 1,
        all_sized(left),
        all_sized(right),
        cells(left) == cells(right),
        rows(left) == rows(right),
    ensures
        left == right,
    decreases left, 1nat,
{
    match (left, right) {
        (ValueView::Tuple(lefts), ValueView::Tuple(rights)) => {
            ValueView::lemma_kinds_of(lefts);
            ValueView::lemma_kinds_of(rights);
            lemma_values_are_lossless(lefts, rights);
        },
        (ValueView::FixedArray(element, lefts), ValueView::FixedArray(_, rights)) => {
            lemma_elements_are_lossless(lefts, rights, element);
        },
        (ValueView::DynamicArray(element, lefts), ValueView::DynamicArray(_, rights)) => {
            lemma_element_rows(lefts);
            lemma_element_rows(rights);
            assert(rows(left)[0] == element_rows(lefts));
            assert(rows(right)[0] == element_rows(rights));
            ValueView::lemma_all_of_kind(lefts, element);
            ValueView::lemma_all_of_kind(rights, element);
            lemma_flat_opens_nothing(element);
            assert forall|i: int| 0 <= i < lefts.len() implies lefts[i] == rights[i] by {
                lemma_each_sized(lefts, i);
                lemma_each_sized(rights, i);
                assert(lefts[i].has_kind(element));
                assert(rights[i].has_kind(element));
                lemma_value_fits(lefts[i], element);
                lemma_value_fits(rights[i], element);
                assert(rows(lefts[i]) =~= rows(rights[i]));
                assert(element_rows(lefts)[i] == cells(lefts[i]));
                assert(element_rows(rights)[i] == cells(rights[i]));
                lemma_value_is_lossless(lefts[i], rights[i], element);
            }
            assert(lefts =~= rights);
        },
        _ => {
            assert(cells(left)[0] == cell(left));
            assert(cells(right)[0] == cell(right));
            lemma_cell_is_lossless(left, right);
        },
    }
}

/// Every scalar of each value of a sized sequence has the size of its kind.
pub proof fn lemma_each_sized(values: Seq<ValueView>, at: int)
    requires
        each_sized(values),
        0 <= at < values.len(),
    ensures
        all_sized(values[at]),
    decreases values.len(),
{
    if at < values.len() - 1 {
        lemma_each_sized(values.drop_last(), at);
    }
}

/// Elements of one kind are the same where they have the same cells and the
/// same rows.
proof fn lemma_elements_are_lossless(lefts: Seq<ValueView>, rights: Seq<ValueView>, kind: KindView)
    requires
        lefts.len() == rights.len(),
        ValueView::all_of_kind(lefts, kind),
        ValueView::all_of_kind(rights, kind),
        kind.nesting() <= 1,
        each_sized(lefts),
        each_sized(rights),
        cells_of(lefts) == cells_of(rights),
        rows_of(lefts) == rows_of(rights),
    ensures
        lefts == rights,
    decreases lefts, 0nat,
{
    if lefts.len() > 0 {
        let left = lefts.last();
        let right = rights.last();
        lemma_value_fits(left, kind);
        lemma_value_fits(right, kind);
        assert(storage_of(cells(left)).len() == cells(left).len());
        assert(storage_of(cells(right)).len() == cells(right).len());
        lemma_same_parts(
            cells_of(lefts.drop_last()),
            cells(left),
            cells_of(rights.drop_last()),
            cells(right),
        );
        lemma_same_parts(
            rows_of(lefts.drop_last()),
            rows(left),
            rows_of(rights.drop_last()),
            rows(right),
        );
        lemma_value_is_lossless(left, right, kind);
        lemma_elements_are_lossless(lefts.drop_last(), rights.drop_last(), kind);
        assert(lefts =~= lefts.drop_last().push(left));
        assert(rights =~= rights.drop_last().push(right));
    } else {
        assert(lefts =~= rights);
    }
}

/// Values of the same kinds, one by one, are the same where they have the
/// same cells and the same rows.
pub proof fn lemma_values_are_lossless(lefts: Seq<ValueView>, rights: Seq<ValueView>)
    requires
        ValueView::kinds_of(lefts) == ValueView::kinds_of(rights),
        ValueView::all_well_formed(lefts),
        ValueView::all_well_formed(rights),
        KindView::nesting_of(ValueView::kinds_of(lefts)) <= 1,
        each_sized(lefts),
        each_sized(rights),
        cells_of(lefts) == cells_of(rights),
        rows_of(lefts) == rows_of(rights),
    ensures
        lefts == rights,
    decreases lefts, 0nat,
{
    ValueView::lemma_kinds_of(lefts);
    ValueView::lemma_kinds_of(rights);
    if lefts.len() > 0 {
        let left = lefts.last();
        let right = rights.last();
        let kinds = ValueView::kinds_of(lefts);
        let kind = left.kind();
        assert(kinds[lefts.len() - 1] == kind);
        assert(right.kind() == kind);
        lemma_nesting_of(kinds, lefts.len() - 1);
        lemma_value_fits(left, kind);
        lemma_value_fits(right, kind);
        assert(storage_of(cells(left)).len() == cells(left).len());
        assert(storage_of(cells(right)).len() == cells(right).len());
        lemma_same_parts(
            cells_of(lefts.drop_last()),
            cells(left),
            cells_of(rights.drop_last()),
            cells(right),
        );
        lemma_same_parts(
            rows_of(lefts.drop_last()),
            rows(left),
            rows_of(rights.drop_last()),
            rows(right),
        );
        lemma_value_is_lossless(left, right, kind);
        assert(ValueView::kinds_of(lefts.drop_last()) =~= kinds.drop_last());
        assert(ValueView::kinds_of(rights.drop_last()) =~= kinds.drop_last());
        assert(KindView::nesting_of(kinds.drop_last()) <= KindView::nesting_of(kinds));
        lemma_values_are_lossless(lefts.drop_last(), rights.drop_last());
        assert(lefts =~= lefts.drop_last().push(left));
        assert(rights =~= rights.drop_last().push(right));
    } else {
        assert(lefts =~= rights);
    }
}

/// Every scalar in a value of the library has the size of its kind.
pub proof fn lemma_value_is_sized(value: Value)
    ensures
        all_sized(value@),
    decreases value, 1nat,
{
    match value {
        Value::Tuple(values) => lemma_values_are_sized(values@),
        Value::FixedArray(_, values) => lemma_values_are_sized(values@),
        Value::DynamicArray(_, values) => lemma_values_are_sized(values@),
        _ => lemma_scalars_are_sized(value),
    }
}

/// Every scalar in values of the library has the size of its kind.
pub proof fn lemma_values_are_sized(values: Seq<Value>)
    ensures
        each_sized(Value::models(values)),
    decreases values, 0nat,
{
    if values.len() > 0 {
        lemma_values_are_sized(values.drop_last());
        lemma_value_is_sized(values.last());
        assert(Value::models(values).drop_last() =~= Value::models(values.drop_last()));
    }
}

} // verus!
