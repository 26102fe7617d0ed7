//! The boundary to the column engine. Every function here calls the engine
//! and states, without proof, what the engine documents of the call.

use crate::model::all_of_type;
use crate::model::holds_int64;
use crate::model::imploded;
use crate::model::int_entries;
use crate::model::int_rows;
use crate::model::is_position;
use crate::model::is_struct_of;
use crate::model::keeps_rows;
use crate::model::list_layout;
use crate::model::rows_of_width;
use crate::model::stored_as_declared;
use crate::model::Cell;
use crate::model::ColumnType;
use crate::offsets::describes;
use crate::offsets::ints;
use crate::offsets::somes;
use polars::prelude::ArrayRef;
use polars::prelude::CompatLevel;
use polars::prelude::DataType;
use polars::prelude::NamedFromOwned;
use polars::prelude::PlSmallStr;
use polars::prelude::PolarsError;
use polars::prelude::Series;
use polars_arrow::array::ListArray;
use polars_arrow::array::StructArray;
use polars_arrow::offset::OffsetsBuffer;
use polars_compute::gather::sublist::fixed_size_list::sub_fixed_size_list_get_literal;
use vstd::prelude::*;

verus! {

/// A column of the engine. Nothing inside it is visible to the proofs: what
/// they know of a column, they know from the names below.
#[verifier::external_type_specification]
#[verifier::external_body]
pub struct ExSeries(Series);

/// The rows that a column holds, in their order.
pub uninterp spec fn rows(s: Series) -> Seq<Cell>;

/// The type that a column is declared to hold.
pub uninterp spec fn column_type(s: Series) -> ColumnType;

/// The name of a column.
pub uninterp spec fn column_name(s: Series) -> Seq<char>;

/// The number of chunks in which a column is stored.
pub uninterp spec fn chunk_count(s: Series) -> nat;

/// The offsets buffer of each chunk of a nested column, in the order of the
/// chunks.
pub uninterp spec fn native_offsets(s: Series) -> Seq<Seq<i64>>;

/// The entries of a column after the engine's lenient cast to 64-bit
/// integers, in which an entry that cannot be cast becomes null; `None` where
/// the engine cannot cast the column at all.
pub uninterp spec fn int64_view(s: Series) -> Option<Seq<Option<i64>>>;

/// Whether the engine accepts the rows of a column as the items of a nested
/// column.
pub uninterp spec fn nests(s: Series) -> bool;

/// The column of the items at one position of the arrays of a column, where
/// the engine gives one.
pub uninterp spec fn gathered(s: Series, position: int) -> Option<Series>;

/// Whether the engine accepts the items of the arrays of a column as the
/// fields of a struct of the given type.
pub uninterp spec fn struct_fits(s: Series, like: ColumnType) -> bool;

/// The rows of each of some columns.
pub open spec fn rows_of_all(columns: Seq<Series>) -> Seq<Seq<Cell>> {
    Seq::new(columns.len(), |j: int| rows(columns[j]))
}

/// The columns are the items of the arrays of `target`, position by
/// position, each stored in at least one chunk.
pub open spec fn are_gathered(columns: Seq<Series>, target: Series) -> bool {
    forall|j: int|
        0 <= j < columns.len() ==> gathered(target, j) == Some(#[trigger] columns[j])
            && chunk_count(columns[j]) >= 1
}

/// `Series::n_chunks`: the number of chunks of the column.
#[verifier::external_body]
pub(crate) fn n_chunks(s: &Series) -> (n: usize)
    ensures
        n == chunk_count(*s),
{
    s.n_chunks()
}

/// `Series::len`: the number of rows of the column.
#[verifier::external_body]
pub(crate) fn series_len(s: &Series) -> (n: usize)
    ensures
        n == rows(*s).len(),
{
    s.len()
}

/// `Series::has_nulls`: whether the column counts a null among its rows.
#[verifier::external_body]
pub(crate) fn has_nulls(s: &Series) -> (b: bool)
    ensures
        b == crate::model::has_null(rows(*s)),
{
    s.has_nulls()
}

/// `Series::cast` to `Int64`, then `Series::i64` and the entries of the
/// result in their order. Whether the engine can cast the column, and the
/// entries it then gives, are named `int64_view`. The cast goes row by row:
/// it gives one entry for each row, and a null entry for a null row. A column
/// of 64-bit integers is handed back as it is, and integers of 32 bits are
/// widened without change, so the entries of such columns are their rows.
#[verifier::external_body]
pub(crate) fn int64_items(s: &Series) -> (r: Result<Vec<Option<i64>>, PolarsError>)
    ensures
        match int64_view(*s) {
            Some(items) => r is Ok && r->Ok_0@ == items,
            None => r is Err,
        },
        holds_int64(column_type(*s)) ==> r is Ok && r->Ok_0@ == int_entries(rows(*s)),
        r matches Ok(items) ==> keeps_rows(items@, rows(*s)),
{
    let cast = s.cast(&DataType::Int64)?;
    Ok(cast.i64()?.iter().collect())
}

/// `Series::list`, then `ListArray::offsets` for each chunk: a copy of the
/// offsets buffer of each chunk. The column is refused exactly when it is not
/// declared to hold lists. The buffers are as the engine documents an
/// `OffsetsBuffer`: never empty, without negative entries, never decreasing.
/// They agree with the rows: one row for each pair of neighbouring offsets,
/// and as many items in a list that is not null as the two lie apart.
#[verifier::external_body]
pub(crate) fn list_offsets(s: &Series) -> (r: Result<Vec<Vec<i64>>, PolarsError>)
    ensures
        r is Ok <==> column_type(*s) is List,
        r matches Ok(chunks) ==> crate::offsets::chunk_views(chunks@) == native_offsets(*s)
            && list_layout(rows(*s), native_offsets(*s)),
{
    let lists = s.list()?;
    Ok(lists.downcast_iter().map(|chunk| chunk.offsets().as_slice().to_vec()).collect())
}

/// `Series::from_vec`: a flat column of 64-bit integers without nulls that
/// holds the given values, under the name of `like`. Cast to 64-bit integers
/// such a column is unchanged. The engine counts rows in 32 bits and panics
/// on a column that reaches that limit, so such values are left out.
#[verifier::external_body]
pub(crate) fn int64_series(like: &Series, values: Vec<i64>) -> (r: Series)
    requires
        values@.len() < u32::MAX,
    ensures
        rows(r) == int_rows(values@),
        int64_view(r) == Some(somes(values@)),
        column_type(r) is Int64,
        column_name(r) == column_name(*like),
{
    Series::from_vec(like.name().clone(), values)
}

/// `ListArray::try_new` over the rows of `target` as one chunk
/// (`Series::rechunk`), the given offsets (`OffsetsBuffer::try_from`) and no
/// validity, made a column by `Series::from_chunk_and_dtype` under the name
/// of `target`. With offsets that describe `target` only the types of the
/// parts can be refused, which is named `nests`. The engine keeps the storage
/// of a column to its declared type, so a target of truth values, of integers
/// of 32 or 64 bits or of text is accepted. Row `i` of the result
/// is the list of the rows of `target` between offsets `i` and `i + 1`, no
/// row is null, and the column is declared to hold lists of what `target`
/// holds. `Series::rechunk` panics on a column without chunks, and the engine
/// on a result that reaches its limit of rows: both are left out.
#[verifier::external_body]
pub(crate) fn list_series(target: &Series, offsets: Vec<i64>) -> (r: Result<Series, PolarsError>)
    requires
        describes(ints(offsets@), rows(*target).len() as int),
        offsets@.len() - 1 < u32::MAX,
        chunk_count(*target) >= 1,
    ensures
        r is Ok <==> nests(*target),
        stored_as_declared(column_type(*target)) ==> r is Ok,
        r matches Ok(list) ==> {
            &&& rows(list) == imploded(rows(*target), ints(offsets@))
            &&& column_type(list) == (ColumnType::List { item: Box::new(column_type(*target)) })
            &&& column_name(list) == column_name(*target)
        },
{
    let dtype = target.dtype().clone().implode();
    let values = target.rechunk().chunks()[0].clone();
    let arrow_dtype = dtype.to_physical().try_to_arrow(CompatLevel::newest())?;
    let buffer = OffsetsBuffer::try_from(offsets)?;
    let array = ListArray::<i64>::try_new(arrow_dtype, buffer, values, None)?;
    Series::from_chunk_and_dtype(target.name().clone(), Box::new(array), &dtype)
}

/// `Series::array` and `ArrayChunked::width`: the width of a column of
/// arrays. The column is refused exactly when it is not declared to hold
/// arrays. Every row of such a column is null or holds `width` items.
#[verifier::external_body]
pub(crate) fn array_width(s: &Series) -> (r: Result<usize, PolarsError>)
    ensures
        r is Ok <==> column_type(*s) is Array,
        r matches Ok(width) ==> column_type(*s)->width == width && rows_of_width(
            rows(*s),
            width as nat,
        ),
{
    Ok(s.array()?.width())
}

/// `Series::struct_` and `StructChunked::struct_fields`: the number of fields
/// of a column of structs. The column is refused exactly when it is not
/// declared to hold structs.
#[verifier::external_body]
pub(crate) fn struct_width(s: &Series) -> (r: Result<usize, PolarsError>)
    ensures
        r is Ok <==> column_type(*s) is Struct,
        r matches Ok(width) ==> column_type(*s)->fields.len() == width,
{
    Ok(s.struct_()?.struct_fields().len())
}

/// `sub_fixed_size_list_get_literal` on the arrays of `target` as one chunk
/// (`ChunkedArray::rechunk`), made a column by `Series::from_chunk_and_dtype`.
/// The result is named `gathered`. The engine keeps the storage of a column
/// to its declared type, so arrays of truth values, of integers of 32 or 64
/// bits or of text always give one. It is stored in one chunk, has one
/// row for each array, and for each array that is not null that row is the
/// array's item at `position`. Of the rows that stand for null arrays nothing
/// is said. `ChunkedArray::rechunk` panics on a column without chunks, and
/// the engine counts rows and items in 32 bits: such columns are left out.
#[verifier::external_body]
pub(crate) fn array_position(target: &Series, position: usize) -> (r: Result<Series, PolarsError>)
    requires
        column_type(*target) is Array,
        position < column_type(*target)->width,
        rows(*target).len() < u32::MAX,
        rows(*target).len() * column_type(*target)->width <= u32::MAX,
        chunk_count(*target) >= 1,
    ensures
        match gathered(*target, position as int) {
            Some(field) => r == Ok::<Series, PolarsError>(field),
            None => r is Err,
        },
        stored_as_declared(*column_type(*target)->Array_item) ==> r is Ok,
        r matches Ok(field) ==> is_position(rows(field), rows(*target), position as int)
            && chunk_count(field) == 1,
{
    let arrays = target.array()?.rechunk();
    let chunk = arrays.downcast_as_array();
    let values = sub_fixed_size_list_get_literal(chunk, position as i64, false)?;
    Series::from_chunk_and_dtype(PlSmallStr::EMPTY, values, arrays.inner_dtype())
}

/// `StructArray::try_new` over the fields, each as one chunk
/// (`Series::rechunk`), with the type of `struct_like` and the validity of
/// the arrays of `target`, made a column by `Series::from_chunk_and_dtype`
/// under the name of `target`. The fields are the items of the arrays of
/// `target`, so whether the engine accepts them depends on `target` and on
/// the type of `struct_like` alone, which is named `struct_fits`. The items
/// came out of `Series::from_chunk_and_dtype`, which holds their storage to
/// their declared type, so they are accepted where every field of
/// `struct_like` is declared to hold the type of the items. The result has
/// one struct for each row of `target`, null where that row is null and made
/// of the fields' values at that row elsewhere, and it is declared as
/// `struct_like` is. `ChunkedArray::rechunk` panics on a column without
/// chunks, and the engine on one that reaches its limit of rows: both are
/// left out.
#[verifier::external_body]
pub(crate) fn struct_series(target: &Series, struct_like: &Series, fields: &Vec<Series>) -> (r:
    Result<Series, PolarsError>)
    requires
        column_type(*target) is Array,
        column_type(*struct_like) is Struct,
        fields@.len() == column_type(*target)->width,
        fields@.len() == column_type(*struct_like)->fields.len(),
        are_gathered(fields@, *target),
        rows(*target).len() < u32::MAX,
        chunk_count(*target) >= 1,
    ensures
        r is Ok <==> struct_fits(*target, column_type(*struct_like)),
        fields@.len() > 0 && all_of_type(
            column_type(*struct_like)->fields,
            *column_type(*target)->Array_item,
        ) ==> r is Ok,
        r matches Ok(out) ==> {
            &&& is_struct_of(rows(out), rows(*target), rows_of_all(fields@))
            &&& column_type(out) == column_type(*struct_like)
            &&& column_name(out) == column_name(*target)
        },
{
    let arrays = target.array()?.rechunk();
    let validity = arrays.downcast_as_array().validity().cloned();
    let children: Vec<ArrayRef> =
        fields.iter().map(|f| f.rechunk().chunks()[0].clone()).collect();
    let dtype = struct_like.dtype();
    let arrow_dtype = dtype.to_physical().try_to_arrow(CompatLevel::newest())?;
    let chunk = StructArray::try_new(arrow_dtype, target.len(), children, validity)?;
    Series::from_chunk_and_dtype(target.name().clone(), Box::new(chunk), dtype)
}

} // verus!
