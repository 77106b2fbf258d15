//! From the fields of an event to the tables that hold its logs.
//!
//! The first table holds, one column each, the scalars that stand outside
//! every dynamic array. Each dynamic array has a table of its own, in the
//! order in which a walk through the fields meets the arrays, with one
//! column for each scalar of an element. Tuples and arrays of fixed size
//! open no table: their scalars are columns of the table they stand in.

use crate::descriptor::EventDescriptor;
use crate::error::SchemaError;
use crate::kind::{repeated, Kind, KindView};
use vstd::prelude::*;

verus! {

/// How a column is stored.
#[derive(Debug, Clone, Copy, PartialEq, Eq, Structural)]
pub enum SqlType {
    Integer,
    Real,
    Text,
    Blob,
}

/// A column of a table.
#[derive(Debug, Clone, Copy, PartialEq, Eq, Structural)]
pub struct Column(pub SqlType);

/// The columns of a table that come from the fields of an event.
#[derive(Debug, PartialEq, Eq)]
pub struct Table(pub Vec<Column>);

impl View for Table {
    type V = Seq<SqlType>;

    open spec fn view(&self) -> Seq<SqlType> {
        self.0@.map_values(|column: Column| column.0)
    }
}

/// The columns of each table.
pub open spec fn layout_of(tables: Seq<Table>) -> Seq<Seq<SqlType>> {
    tables.map_values(|table: Table| table@)
}

/// How a scalar is stored: a boolean as an integer, anything else as bytes.
pub open spec fn storage(kind: KindView) -> SqlType {
    if kind is Bool {
        SqlType::Integer
    } else {
        SqlType::Blob
    }
}

/// The columns that `kind` adds to the table it stands in: one for each of
/// its scalars outside a dynamic array.
pub open spec fn columns(kind: KindView) -> Seq<SqlType>
    decreases kind,
{
    match kind {
        KindView::Tuple(fields) => columns_of(fields),
        KindView::FixedArray(size, element) => repeated(size, columns(*element)),
        KindView::DynamicArray(_) => Seq::empty(),
        _ => seq![storage(kind)],
    }
}

/// The columns of `kinds`, one kind after the other.
pub open spec fn columns_of(kinds: Seq<KindView>) -> Seq<SqlType>
    decreases kinds,
{
    if kinds.len() == 0 {
        Seq::empty()
    } else {
        columns_of(kinds.drop_last()) + columns(kinds.last())
    }
}

/// The tables that `kind` opens: one for each dynamic array, with the
/// columns of an element.
pub open spec fn arrays(kind: KindView) -> Seq<Seq<SqlType>>
    decreases kind,
{
    match kind {
        KindView::Tuple(fields) => arrays_of(fields),
        KindView::FixedArray(size, element) => repeated(size, arrays(*element)),
        KindView::DynamicArray(element) => seq![columns(*element)],
        _ => Seq::empty(),
    }
}

/// The tables that `kinds` open, one kind after the other.
pub open spec fn arrays_of(kinds: Seq<KindView>) -> Seq<Seq<SqlType>>
    decreases kinds,
{
    if kinds.len() == 0 {
        Seq::empty()
    } else {
        arrays_of(kinds.drop_last()) + arrays(kinds.last())
    }
}

/// The tables of an event with fields of these kinds.
pub open spec fn layout(kinds: Seq<KindView>) -> Seq<Seq<SqlType>> {
    seq![columns_of(kinds)] + arrays_of(kinds)
}

/// `tables` after a field of kind `kind` has been laid out, its scalars
/// going to the table at `index`.
pub open spec fn extended(tables: Seq<Seq<SqlType>>, index: int, kind: KindView) -> Seq<
    Seq<SqlType>,
> {
    tables.update(index, tables[index] + columns(kind)) + arrays(kind)
}

/// No kind of a sequence is nested deeper than the sequence.
pub proof fn lemma_nesting_of(kinds: Seq<KindView>, i: int)
    requires
        0 <= i < kinds.len(),
    ensures
        kinds[i].nesting() <= KindView::nesting_of(kinds),
    decreases kinds.len(),
{
    if i < kinds.len() - 1 {
        lemma_nesting_of(kinds.drop_last(), i);
    }
}

/// Some kind of a non-empty sequence is nested as deep as the sequence.
pub proof fn lemma_nesting_of_reached(kinds: Seq<KindView>) -> (i: int)
    requires
        kinds.len() > 0,
    ensures
        0 <= i < kinds.len(),
        kinds[i].nesting() == KindView::nesting_of(kinds),
    decreases kinds.len(),
{
    let before = kinds.drop_last();
    if kinds.last().nesting() > KindView::nesting_of(before) || before.len() == 0 {
        kinds.len() - 1
    } else {
        lemma_nesting_of_reached(before)
    }
}

/// The fields of an event hold a dynamic array inside another one where one
/// of them does.
pub proof fn lemma_nested_field(kinds: Seq<KindView>)
    ensures
        KindView::nesting_of(kinds) > 1 <==> exists|i: int|
            0 <= i < kinds.len() && (#[trigger] kinds[i]).nesting() > 1,
{
    if KindView::nesting_of(kinds) > 1 {
        let i = lemma_nesting_of_reached(kinds);
        assert(kinds[i].nesting() > 1);
    }
    if exists|i: int| 0 <= i < kinds.len() && (#[trigger] kinds[i]).nesting() > 1 {
        let i = choose|i: int| 0 <= i < kinds.len() && (#[trigger] kinds[i]).nesting() > 1;
        lemma_nesting_of(kinds, i);
    }
}

/// A kind without a dynamic array opens no table.
pub proof fn lemma_flat_opens_nothing(kind: KindView)
    requires
        kind.nesting() == 0,
    ensures
        arrays(kind) =~= Seq::empty(),
    decreases kind,
{
    match kind {
        KindView::Tuple(fields) => {
            lemma_flat_open_nothing(fields);
        },
        KindView::FixedArray(size, element) => {
            lemma_flat_opens_nothing(*element);
            lemma_repeated_empty::<Seq<SqlType>>(size);
        },
        _ => {},
    }
}

/// Kinds without a dynamic array open no table.
pub proof fn lemma_flat_open_nothing(kinds: Seq<KindView>)
    requires
        KindView::nesting_of(kinds) == 0,
    ensures
        arrays_of(kinds) =~= Seq::empty(),
    decreases kinds,
{
    if kinds.len() > 0 {
        lemma_flat_open_nothing(kinds.drop_last());
        lemma_flat_opens_nothing(kinds.last());
    }
}

/// Copies of nothing are nothing.
pub proof fn lemma_repeated_empty<T>(count: nat)
    ensures
        repeated(count, Seq::<T>::empty()) =~= Seq::empty(),
    decreases count,
{
    if count > 0 {
        lemma_repeated_empty::<T>((count - 1) as nat);
    }
}

/// Copies of a piece are as long as the piece, times their number.
pub proof fn lemma_repeated_len<T>(count: nat, piece: Seq<T>)
    ensures
        repeated(count, piece).len() == count * piece.len(),
    decreases count,
{
    if count > 0 {
        lemma_repeated_len((count - 1) as nat, piece);
        assert(count * piece.len() == (count - 1) * piece.len() + piece.len()) by (nonlinear_arith);
    } else {
        assert(count * piece.len() == 0) by (nonlinear_arith)
            requires
                count == 0,
        ;
    }
}

/// The depth of the dynamic arrays of `kind`, as far as it matters: 0, 1,
/// or 2 for anything deeper.
fn nesting_up_to_two(kind: &Kind) -> (depth: u8)
    ensures
        depth == if kind@.nesting() < 2 { kind@.nesting() } else { 2 },
    decreases kind,
{
    match kind {
        Kind::Tuple(fields) => {
            let ghost kinds = Kind::models(fields@);
            let mut depth: u8 = 0;
            let mut i: usize = 0;
            proof {
                Kind::lemma_models(fields@);
                assert(kinds.take(0) =~= Seq::empty());
            }
            while i < fields.len()
                invariant
                    kind matches Kind::Tuple(all) && all == fields,
                    kinds == Kind::models(fields@),
                    kinds.len() == fields.len(),
                    i <= fields.len(),
                    depth == if KindView::nesting_of(kinds.take(i as int)) < 2 {
                        KindView::nesting_of(kinds.take(i as int))
                    } else {
                        2
                    },
                decreases fields.len() - i,
            {
                let inner = nesting_up_to_two(&fields[i]);
                proof {
                    Kind::lemma_models(fields@);
                    let next = kinds.take(i + 1);
                    assert(next.drop_last() =~= kinds.take(i as int));
                    assert(next.last() == fields@[i as int].model());
                }
                if inner > depth {
                    depth = inner;
                }
                i = i + 1;
            }
            proof {
                assert(kinds.take(fields.len() as int) =~= kinds);
            }
            depth
        },
        Kind::FixedArray(_, element) => nesting_up_to_two(&**element),
        Kind::DynamicArray(element) => {
            let inner = nesting_up_to_two(&**element);
            if inner >= 1 {
                2
            } else {
                1
            }
        },
        _ => 0,
    }
}

/// Whether a dynamic array stands inside another one in `kind`.
pub fn has_nested_dynamic_arrays(kind: &Kind) -> (nested: bool)
    ensures
        nested == (kind@.nesting() > 1),
{
    nesting_up_to_two(kind) > 1
}

/// Laying out one piece after another is laying out both at once.
proof fn lemma_extended_twice(
    before: Seq<Seq<SqlType>>,
    index: int,
    first: Seq<SqlType>,
    opened: Seq<Seq<SqlType>>,
    second: Seq<SqlType>,
    opened_next: Seq<Seq<SqlType>>,
)
    requires
        0 <= index < before.len(),
    ensures
        ({
            let current = before.update(index, before[index] + first) + opened;
            current.update(index, current[index] + second) + opened_next
        }) == before.update(index, before[index] + (first + second)) + (opened + opened_next),
{
    let current = before.update(index, before[index] + first) + opened;
    let left = current.update(index, current[index] + second) + opened_next;
    let right = before.update(index, before[index] + (first + second)) + (opened + opened_next);
    assert((before[index] + first) + second =~= before[index] + (first + second));
    assert(left =~= right);
}

/// The storage of a scalar.
fn storage_of(kind: &Kind) -> (stored: SqlType)
    requires
        kind@.is_scalar(),
    ensures
        stored == storage(kind@),
{
    match kind {
        Kind::Bool => SqlType::Integer,
        _ => SqlType::Blob,
    }
}

/// Lays out a field of kind `kind`, its scalars going to the table at
/// `index`.
fn map_into(tables: &mut Vec<Table>, index: usize, kind: &Kind)
    requires
        index < old(tables).len(),
        kind@.nesting() <= 1,
    ensures
        layout_of(final(tables)@) == extended(layout_of(old(tables)@), index as int, kind@),
    decreases kind,
{
    let ghost before = layout_of(tables@);
    match kind {
        Kind::Tuple(fields) => {
            let ghost kinds = Kind::models(fields@);
            proof {
                Kind::lemma_models(fields@);
                assert(kinds.take(0) =~= Seq::empty());
                assert(layout_of(tables@) =~= before.update(
                    index as int,
                    before[index as int] + columns_of(kinds.take(0)),
                ) + arrays_of(kinds.take(0)));
            }
            let mut i: usize = 0;
            while i < fields.len()
                invariant
                    kind matches Kind::Tuple(all) && all == fields,
                    kinds == Kind::models(fields@),
                    kinds.len() == fields.len(),
                    KindView::nesting_of(kinds) <= 1,
                    i <= fields.len(),
                    index < before.len(),
                    layout_of(tables@) == before.update(
                        index as int,
                        before[index as int] + columns_of(kinds.take(i as int)),
                    ) + arrays_of(kinds.take(i as int)),
                decreases fields.len() - i,
            {
                proof {
                    Kind::lemma_models(fields@);
                    lemma_nesting_of(kinds, i as int);
                    assert(layout_of(tables@).len() == tables@.len());
                }
                map_into(tables, index, &fields[i]);
                proof {
                    let next = kinds.take(i + 1);
                    assert(next.drop_last() =~= kinds.take(i as int));
                    assert(next.last() == fields@[i as int].model());
                    lemma_extended_twice(
                        before,
                        index as int,
                        columns_of(kinds.take(i as int)),
                        arrays_of(kinds.take(i as int)),
                        columns(next.last()),
                        arrays(next.last()),
                    );
                    assert(layout_of(tables@) =~= before.update(
                        index as int,
                        before[index as int] + columns_of(next),
                    ) + arrays_of(next));
                }
                i = i + 1;
            }
            proof {
                assert(kinds.take(fields.len() as int) =~= kinds);
            }
        },
        Kind::FixedArray(size, element) => {
            let mut count: usize = 0;
            proof {
                assert(layout_of(tables@) =~= before.update(
                    index as int,
                    before[index as int] + repeated(0, columns(element@)),
                ) + repeated(0, arrays(element@)));
            }
            while count < *size
                invariant
                    kind matches Kind::FixedArray(n, inner) && n == size && inner == element,
                    element@.nesting() <= 1,
                    count <= *size,
                    index < before.len(),
                    layout_of(tables@) == before.update(
                        index as int,
                        before[index as int] + repeated(count as nat, columns(element@)),
                    ) + repeated(count as nat, arrays(element@)),
                decreases *size - count,
            {
                proof {
                    assert(layout_of(tables@).len() == tables@.len());
                }
                map_into(tables, index, &**element);
                proof {
                    lemma_extended_twice(
                        before,
                        index as int,
                        repeated(count as nat, columns(element@)),
                        repeated(count as nat, arrays(element@)),
                        columns(element@),
                        arrays(element@),
                    );
                    assert(layout_of(tables@) =~= before.update(
                        index as int,
                        before[index as int] + repeated((count + 1) as nat, columns(element@)),
                    ) + repeated((count + 1) as nat, arrays(element@)));
                }
                count = count + 1;
            }
        },
        Kind::DynamicArray(element) => {
            tables.push(Table(Vec::new()));
            let last = tables.len() - 1;
            proof {
                assert(tables@.last()@ =~= Seq::<SqlType>::empty());
                assert(layout_of(tables@) =~= before.push(Seq::empty()));
            }
            map_into(tables, last, &**element);
            proof {
                lemma_flat_opens_nothing(element@);
                assert(layout_of(tables@) =~= extended(before, index as int, kind@));
            }
        },
        _ => {
            let column = Column(storage_of(kind));
            tables[index].0.push(column);
            proof {
                assert(tables@[index as int]@ =~= before[index as int] + seq![column.0]);
                assert(layout_of(tables@) =~= extended(before, index as int, kind@));
            }
        },
    }
}

/// Lays out a field of kind `kind`: its scalars outside dynamic arrays become
/// columns of the first table, and each of its dynamic arrays a new table
/// behind those that are there.
pub fn map_value(tables: &mut Vec<Table>, kind: &Kind)
    requires
        old(tables).len() > 0,
        kind@.nesting() <= 1,
    ensures
        layout_of(final(tables)@) == extended(layout_of(old(tables)@), 0, kind@),
{
    map_into(tables, 0, kind)
}

/// The tables of an event have one table more than its fields have dynamic
/// arrays, and the first has one column for each scalar outside the arrays.
pub proof fn lemma_layout_counts(kinds: Seq<KindView>)
    ensures
        layout(kinds).len() == 1 + KindView::array_count_of(kinds),
        layout(kinds)[0].len() == KindView::scalar_count_of(kinds),
{
    lemma_counts_of(kinds);
}

/// Where no array of fixed size repeats a dynamic array, an event has one
/// table more than dynamic arrays are written in its fields.
pub proof fn lemma_layout_written_arrays(kinds: Seq<KindView>)
    requires
        KindView::repeat_no_array(kinds),
    ensures
        layout(kinds).len() == 1 + KindView::written_arrays_of(kinds),
{
    lemma_counts_of(kinds);
    lemma_written_arrays_of(kinds);
}

/// A kind that repeats no array meets as many dynamic arrays as are written
/// in it.
pub proof fn lemma_written_arrays(kind: KindView)
    requires
        kind.repeats_no_array(),
    ensures
        kind.array_count() == kind.written_arrays(),
    decreases kind,
{
    match kind {
        KindView::Tuple(fields) => {
            lemma_written_arrays_of(fields);
        },
        KindView::FixedArray(size, element) => {
            lemma_written_arrays(*element);
            assert(size * element.array_count() == element.array_count()) by (nonlinear_arith)
                requires
                    size == 1 || element.array_count() == 0,
            ;
        },
        _ => {},
    }
}

/// Kinds that repeat no array meet as many dynamic arrays as are written in
/// them.
pub proof fn lemma_written_arrays_of(kinds: Seq<KindView>)
    requires
        KindView::repeat_no_array(kinds),
    ensures
        KindView::array_count_of(kinds) == KindView::written_arrays_of(kinds),
    decreases kinds,
{
    if kinds.len() > 0 {
        lemma_written_arrays_of(kinds.drop_last());
        lemma_written_arrays(kinds.last());
    }
}

/// A kind has as many columns as scalars outside dynamic arrays, and opens as
/// many tables as it has dynamic arrays.
pub proof fn lemma_counts(kind: KindView)
    ensures
        columns(kind).len() == kind.scalar_count(),
        arrays(kind).len() == kind.array_count(),
    decreases kind,
{
    match kind {
        KindView::Tuple(fields) => {
            lemma_counts_of(fields);
        },
        KindView::FixedArray(size, element) => {
            lemma_counts(*element);
            lemma_repeated_len(size, columns(*element));
            lemma_repeated_len(size, arrays(*element));
        },
        _ => {},
    }
}

/// Kinds have as many columns as scalars outside dynamic arrays, and open as
/// many tables as they have dynamic arrays.
pub proof fn lemma_counts_of(kinds: Seq<KindView>)
    ensures
        columns_of(kinds).len() == KindView::scalar_count_of(kinds),
        arrays_of(kinds).len() == KindView::array_count_of(kinds),
    decreases kinds,
{
    if kinds.len() > 0 {
        lemma_counts_of(kinds.drop_last());
        lemma_counts(kinds.last());
    }
}

/// The tables that hold the logs of `event`.
///
/// An event with a dynamic array inside another one has no tables. Any
/// other event has the tables of [`layout`]: one more than its fields have
/// dynamic arrays, the first with a column for each scalar outside them.
pub fn event_to_tables(event: &EventDescriptor) -> (result: Result<Vec<Table>, SchemaError>)
    ensures
        match result {
            Ok(tables) => {
                &&& KindView::nesting_of(event@.kinds()) <= 1
                &&& layout_of(tables@) == layout(event@.kinds())
                &&& tables@.len() == 1 + KindView::array_count_of(event@.kinds())
                &&& tables@[0]@.len() == KindView::scalar_count_of(event@.kinds())
            },
            Err(error) => {
                &&& error == SchemaError::NestedDynamicArrays
                &&& KindView::nesting_of(event@.kinds()) > 1
            },
        },
{
    let ghost kinds = event@.kinds();
    let mut i: usize = 0;
    proof {
        assert(kinds.take(0) =~= Seq::empty());
    }
    while i < event.inputs.len()
        invariant
            kinds == event@.kinds(),
            kinds.len() == event.inputs.len(),
            i <= event.inputs.len(),
            KindView::nesting_of(kinds.take(i as int)) <= 1,
        decreases event.inputs.len() - i,
    {
        proof {
            let next = kinds.take(i + 1);
            assert(next.drop_last() =~= kinds.take(i as int));
            assert(next.last() == event.inputs@[i as int].kind@);
        }
        if has_nested_dynamic_arrays(&event.inputs[i].kind) {
            proof {
                lemma_nesting_of(kinds, i as int);
            }
            return Err(SchemaError::NestedDynamicArrays);
        }
        i = i + 1;
    }
    proof {
        assert(kinds.take(kinds.len() as int) =~= kinds);
    }
    let mut tables: Vec<Table> = Vec::new();
    tables.push(Table(Vec::new()));
    let mut i: usize = 0;
    proof {
        assert(tables@[0]@ =~= columns_of(kinds.take(0)));
        assert(layout_of(tables@) =~= layout(kinds.take(0)));
    }
    while i < event.inputs.len()
        invariant
            kinds == event@.kinds(),
            kinds.len() == event.inputs.len(),
            KindView::nesting_of(kinds) <= 1,
            i <= event.inputs.len(),
            layout_of(tables@) == layout(kinds.take(i as int)),
        decreases event.inputs.len() - i,
    {
        proof {
            lemma_nesting_of(kinds, i as int);
            assert(layout_of(tables@).len() > 0);
        }
        map_value(&mut tables, &event.inputs[i].kind);
        proof {
            let next = kinds.take(i + 1);
            assert(next.drop_last() =~= kinds.take(i as int));
            assert(next.last() == event.inputs@[i as int].kind@);
            assert(layout_of(tables@) =~= layout(next));
        }
        i = i + 1;
    }
    proof {
        assert(kinds.take(kinds.len() as int) =~= kinds);
        lemma_layout_counts(kinds);
        assert(layout_of(tables@)[0] == tables@[0]@);
    }
    Ok(tables)
}

} // verus!
