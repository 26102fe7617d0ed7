//! Columns as mathematical values: rows, declared types, and what imploding
//! and flattening mean for them.

use crate::offsets::chunk_ok;
use crate::offsets::describes;
use crate::offsets::extents;
use crate::offsets::offsets_of;
use crate::offsets::prefix_sum;
use vstd::prelude::*;

verus! {

/// One row of a column, as a mathematical value.
pub enum Cell {
    /// No value.
    Null,
    /// A value that holds no other cells. The number stands for the value as
    /// it is stored, and is the value itself where the column holds integers.
    Value(int),
    /// A list, or an array of fixed width, with its items in order.
    List(Seq<Cell>),
    /// A struct, with the values of its fields in their declared order.
    Struct(Seq<Cell>),
}

/// The type that a column is declared to hold.
pub enum ColumnType {
    /// Truth values.
    Boolean,
    /// 32-bit signed integers.
    Int32,
    /// 64-bit signed integers.
    Int64,
    /// 32-bit unsigned integers.
    UInt32,
    /// 64-bit unsigned integers.
    UInt64,
    /// Text.
    String,
    /// Another type without parts; the number tells such types apart.
    Other(int),
    /// Lists of any length with items of one type.
    List { item: Box<ColumnType> },
    /// Arrays of `width` items of one type.
    Array { item: Box<ColumnType>, width: nat },
    /// Structs with the given fields, each with its name and type.
    Struct { fields: Seq<(Seq<char>, ColumnType)> },
}

/// The items of a list row; a row that is no list has none.
pub open spec fn items_of(row: Cell) -> Seq<Cell> {
    match row {
        Cell::List(items) => items,
        _ => Seq::empty(),
    }
}

/// The number of items of each row.
pub open spec fn list_lengths(rows: Seq<Cell>) -> Seq<int> {
    Seq::new(rows.len(), |i: int| items_of(rows[i]).len() as int)
}

/// Some row is null.
pub open spec fn has_null(rows: Seq<Cell>) -> bool {
    exists|i: int| 0 <= i < rows.len() && rows[i] is Null
}

/// Every row is a list: none is null.
pub open spec fn all_lists(rows: Seq<Cell>) -> bool {
    forall|i: int| 0 <= i < rows.len() ==> rows[i] is List
}

/// Every row is null or an array of `width` items.
pub open spec fn rows_of_width(rows: Seq<Cell>, width: nat) -> bool {
    forall|i: int|
        0 <= i < rows.len() ==> rows[i] is Null || (rows[i] is List && items_of(rows[i]).len()
            == width)
}

/// The rows of a nested column agree with the offsets buffers of its chunks:
/// every row is a list or null, every buffer is well formed, there is one row
/// for each pair of neighbouring offsets, and a list has as many items as
/// its two offsets lie apart.
pub open spec fn list_layout(rows: Seq<Cell>, chunks: Seq<Seq<i64>>) -> bool {
    &&& forall|c: int| 0 <= c < chunks.len() ==> chunk_ok(#[trigger] chunks[c])
    &&& extents(chunks).len() == rows.len()
    &&& forall|i: int| 0 <= i < rows.len() ==> rows[i] is Null || rows[i] is List
    &&& forall|i: int|
        0 <= i < rows.len() && rows[i] is List ==> items_of(rows[i]).len() == extents(chunks)[i]
}

/// The entries of a flat column of integers: the number for a value, `None`
/// for a null.
pub open spec fn int_entries(rows: Seq<Cell>) -> Seq<Option<i64>> {
    Seq::new(
        rows.len(),
        |i: int|
            match rows[i] {
                Cell::Value(v) => Some(v as i64),
                _ => None,
            },
    )
}

/// The entries stand for the rows one by one, a null entry for a null row.
pub open spec fn keeps_rows(entries: Seq<Option<i64>>, rows: Seq<Cell>) -> bool {
    &&& entries.len() == rows.len()
    &&& forall|i: int| 0 <= i < rows.len() && rows[i] is Null ==> entries[i] is None
}

/// A type whose values the engine stores as they are declared: truth
/// values, integers of 32 and 64 bits, and text.
pub open spec fn stored_as_declared(t: ColumnType) -> bool {
    t is Boolean || t is Int32 || t is Int64 || t is UInt32 || t is UInt64 || t is String
}

/// A type of integers all of which are 64-bit signed integers too: signed
/// and unsigned integers of 32 bits, and 64-bit signed integers themselves.
pub open spec fn holds_int64(t: ColumnType) -> bool {
    t is Int32 || t is Int64 || t is UInt32
}

/// Every field is declared to hold the type `t`.
pub open spec fn all_of_type(fields: Seq<(Seq<char>, ColumnType)>, t: ColumnType) -> bool {
    forall|j: int| 0 <= j < fields.len() ==> (#[trigger] fields[j]).1 == t
}

/// The rows of a flat column of integers without nulls.
pub open spec fn int_rows(values: Seq<i64>) -> Seq<Cell> {
    Seq::new(values.len(), |i: int| Cell::Value(values[i] as int))
}

/// The items of all rows, laid end to end.
pub open spec fn flattened(rows: Seq<Cell>) -> Seq<Cell>
    decreases rows.len(),
{
    if rows.len() == 0 {
        Seq::empty()
    } else {
        flattened(rows.drop_last()) + items_of(rows.last())
    }
}

/// The nested column that the offsets make of a flat one: row `i` is the list
/// of the children from `offsets[i]` up to, and without, `offsets[i + 1]`.
/// No row is null.
pub open spec fn imploded(children: Seq<Cell>, offsets: Seq<int>) -> Seq<Cell> {
    Seq::new(
        (offsets.len() - 1) as nat,
        |i: int| Cell::List(children.subrange(offsets[i], offsets[i + 1])),
    )
}

/// `field` holds, for every array of `target` that is not null, the item at
/// `position`.
pub open spec fn is_position(field: Seq<Cell>, target: Seq<Cell>, position: int) -> bool {
    &&& field.len() == target.len()
    &&& forall|i: int|
        0 <= i < target.len() && target[i] is List ==> field[i] == items_of(target[i])[position]
}

/// The struct row that the fields make at row `i`.
pub open spec fn struct_row(fields: Seq<Seq<Cell>>, i: int) -> Cell {
    Cell::Struct(Seq::new(fields.len(), |j: int| fields[j][i]))
}

/// `out` holds one struct for each row of `target`, null where that row is
/// null, and made of the fields' values at that row elsewhere.
pub open spec fn is_struct_of(out: Seq<Cell>, target: Seq<Cell>, fields: Seq<Seq<Cell>>) -> bool {
    &&& out.len() == target.len()
    &&& forall|i: int|
        0 <= i < target.len() ==> out[i] == if target[i] is Null {
            Cell::Null
        } else {
            struct_row(fields, i)
        }
}

/// `out` is `target` with every array read as a struct: as many rows, null
/// where `target` is null, and field `j` of row `i` is item `j` of array `i`.
pub open spec fn is_struct_cast(out: Seq<Cell>, target: Seq<Cell>) -> bool {
    &&& out.len() == target.len()
    &&& forall|i: int|
        0 <= i < target.len() ==> out[i] == if target[i] is Null {
            Cell::Null
        } else {
            Cell::Struct(items_of(target[i]))
        }
}

/// The flattened length of rows is the total of their lengths.
pub proof fn lemma_flattened_len(rows: Seq<Cell>)
    ensures
        flattened(rows).len() == prefix_sum(list_lengths(rows), rows.len() as int),
    decreases rows.len(),
{
    if rows.len() > 0 {
        lemma_flattened_len(rows.drop_last());
        lemma_prefix_sum_take(list_lengths(rows), list_lengths(rows.drop_last()), rows.len() - 1);
    }
}

/// Running totals depend only on the lengths that they add up.
pub proof fn lemma_prefix_sum_take(a: Seq<int>, b: Seq<int>, k: int)
    requires
        0 <= k <= a.len(),
        k <= b.len(),
        forall|i: int| 0 <= i < k ==> a[i] == b[i],
    ensures
        prefix_sum(a, k) == prefix_sum(b, k),
    decreases k,
{
    if k > 0 {
        lemma_prefix_sum_take(a, b, k - 1);
    }
}

/// Rows of lists lie in their flattened column where the offsets of their
/// lengths say.
pub proof fn lemma_row_in_flattened(rows: Seq<Cell>, i: int)
    requires
        0 <= i < rows.len(),
    ensures
        0 <= prefix_sum(list_lengths(rows), i) <= prefix_sum(list_lengths(rows), i + 1)
            <= flattened(rows).len(),
        flattened(rows).subrange(
            prefix_sum(list_lengths(rows), i),
            prefix_sum(list_lengths(rows), i + 1),
        ) == items_of(rows[i]),
    decreases rows.len(),
{
    let front = rows.drop_last();
    let lengths = list_lengths(rows);
    lemma_flattened_len(front);
    lemma_flattened_len(rows);
    lemma_prefix_sum_take(lengths, list_lengths(front), rows.len() - 1);
    if i == rows.len() - 1 {
        assert(flattened(rows).subrange(prefix_sum(lengths, i), prefix_sum(lengths, i + 1))
            =~= items_of(rows[i]));
    } else {
        lemma_row_in_flattened(front, i);
        lemma_prefix_sum_take(lengths, list_lengths(front), i);
        lemma_prefix_sum_take(lengths, list_lengths(front), i + 1);
        assert(flattened(rows).subrange(prefix_sum(lengths, i), prefix_sum(lengths, i + 1))
            =~= flattened(front).subrange(
            prefix_sum(list_lengths(front), i),
            prefix_sum(list_lengths(front), i + 1),
        ));
    }
}

/// Flattening a nested column without nulls and imploding the result with
/// the offsets of the column's own lengths gives the column back, row for row.
pub proof fn lemma_round_trip(rows: Seq<Cell>)
    requires
        all_lists(rows),
    ensures
        describes(offsets_of(list_lengths(rows)), flattened(rows).len() as int),
        imploded(flattened(rows), offsets_of(list_lengths(rows))) == rows,
{
    let lengths = list_lengths(rows);
    let offsets = offsets_of(lengths);
    crate::offsets::lemma_offsets_of_non_negative(lengths);
    lemma_flattened_len(rows);
    assert forall|i: int| 0 <= i < rows.len() implies imploded(flattened(rows), offsets)[i]
        == rows[i] by {
        lemma_row_in_flattened(rows, i);
    }
    assert(imploded(flattened(rows), offsets) =~= rows);
}

/// The rows that offsets make of a flat column have the lengths that the
/// offsets describe, hold no null, and flatten to the column itself.
pub proof fn lemma_imploded_shape(children: Seq<Cell>, offsets: Seq<int>)
    requires
        describes(offsets, children.len() as int),
    ensures
        imploded(children, offsets).len() == offsets.len() - 1,
        all_lists(imploded(children, offsets)),
        !has_null(imploded(children, offsets)),
        list_lengths(imploded(children, offsets)) == crate::offsets::lengths_of(offsets),
        flattened(imploded(children, offsets)) == children,
{
    let rows = imploded(children, offsets);
    assert forall|i: int| 0 <= i < rows.len() implies list_lengths(rows)[i]
        == crate::offsets::lengths_of(offsets)[i] by {
        assert(offsets[i] <= offsets[i + 1]);
        assert(0 <= offsets[i]) by {
            assert(offsets[0] <= offsets[i]);
        }
        assert(offsets[i + 1] <= offsets.last());
    }
    assert(list_lengths(rows) =~= crate::offsets::lengths_of(offsets));
    lemma_flattened_prefix(children, offsets, rows.len() as int);
    assert(rows.take(rows.len() as int) =~= rows);
    assert(children.take(children.len() as int) =~= children);
}

proof fn lemma_flattened_prefix(children: Seq<Cell>, offsets: Seq<int>, n: int)
    requires
        describes(offsets, children.len() as int),
        0 <= n < offsets.len(),
    ensures
        0 <= offsets[n] <= children.len(),
        flattened(imploded(children, offsets).take(n)) == children.take(offsets[n]),
    decreases n,
{
    let rows = imploded(children, offsets);
    assert(offsets[0] <= offsets[n]);
    assert(offsets[n] <= offsets.last());
    if n == 0 {
        assert(flattened(rows.take(0)) =~= children.take(0));
    } else {
        lemma_flattened_prefix(children, offsets, n - 1);
        assert(offsets[n - 1] <= offsets[n]);
        assert(rows.take(n).drop_last() =~= rows.take(n - 1));
        assert(rows.take(n).last() == rows[n - 1]);
        assert(children.take(offsets[n - 1]) + children.subrange(offsets[n - 1], offsets[n])
            =~= children.take(offsets[n]));
    }
}

} // verus!
