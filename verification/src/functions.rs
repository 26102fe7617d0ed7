//! The reshaping functions on columns of the engine.

use crate::column::are_gathered;
use crate::column::array_position;
use crate::column::array_width;
use crate::column::chunk_count;
use crate::column::column_name;
use crate::column::column_type;
use crate::column::gathered;
use crate::column::has_nulls;
use crate::column::int64_items;
use crate::column::int64_series;
use crate::column::int64_view;
use crate::column::list_offsets;
use crate::column::list_series;
use crate::column::n_chunks;
use crate::column::native_offsets;
use crate::column::nests;
use crate::column::rows;
use crate::column::rows_of_all;
use crate::column::series_len;
use crate::column::struct_fits;
use crate::column::struct_series;
use crate::column::struct_width;
use crate::error::from_engine;
use crate::error::Mismatch;
use crate::error::NullsIn;
use crate::error::ReshapeError;
use crate::model::all_of_type;
use crate::model::all_lists;
use crate::model::flattened;
use crate::model::has_null;
use crate::model::holds_int64;
use crate::model::imploded;
use crate::model::int_entries;
use crate::model::int_rows;
use crate::model::is_position;
use crate::model::is_struct_cast;
use crate::model::items_of;
use crate::model::keeps_rows;
use crate::model::list_lengths;
use crate::model::stored_as_declared;
use crate::model::Cell;
use crate::model::ColumnType;
use crate::offsets::check_lengths;
use crate::offsets::check_offsets;
use crate::offsets::extents;
use crate::offsets::first_overflow;
use crate::offsets::ints;
use crate::offsets::join_chunks;
use crate::offsets::lengths_fault;
use crate::offsets::offset_values;
use crate::offsets::offsets_fault;
use crate::offsets::offsets_of;
use crate::offsets::somes;
use crate::offsets::totals_fit;
use crate::offsets::unwrapped;
use polars::prelude::Series;
use vstd::prelude::*;

verus! {

/// The error for a column of `rows` rows, which the engine cannot count.
pub open spec fn too_many_rows(rows: int) -> ReshapeError {
    ReshapeError::ShapeMismatch(Mismatch::TooManyRows { rows: rows as usize })
}

/// The error for a target that is stored in no chunk.
pub open spec fn no_chunk() -> ReshapeError {
    ReshapeError::ShapeMismatch(Mismatch::NoChunk)
}

/// `r` is what is made of a target and offsets that describe it. A target
/// without chunks is refused first, then offsets for more rows than the
/// engine counts. After that the engine decides: where the target nests, `r`
/// is the nested column whose row `i` holds the rows of the target between
/// offsets `i` and `i + 1`, under the name of the target and declared to hold
/// lists of what the target holds; where it does not, `r` is the engine's
/// refusal. A target of truth values, of integers of 32 or 64 bits or of text
/// nests.
pub open spec fn is_built(r: Result<Series, ReshapeError>, target: Series, offsets: Seq<int>) -> bool {
    if chunk_count(target) == 0 {
        r == Err::<Series, ReshapeError>(no_chunk())
    } else if offsets.len() - 1 >= u32::MAX {
        r == Err::<Series, ReshapeError>(too_many_rows(offsets.len() - 1))
    } else {
        &&& stored_as_declared(column_type(target)) ==> nests(target)
        &&& match r {
            Ok(list) => {
                &&& nests(target)
                &&& rows(list) == imploded(rows(target), offsets)
                &&& column_type(list) == (ColumnType::List { item: Box::new(column_type(target)) })
                &&& column_name(list) == column_name(target)
            },
            Err(e) => !nests(target) && e is Engine,
        }
    }
}

/// `r` is what comes of imploding a target with offsets read from a column:
/// the fault for which the offsets are refused, or else what is made of the
/// target and the offsets.
pub open spec fn is_implosion(
    r: Result<Series, ReshapeError>,
    target: Series,
    items: Seq<Option<i64>>,
) -> bool {
    match offsets_fault(items, rows(target).len() as usize) {
        Some(e) => r == Err::<Series, ReshapeError>(e),
        None => is_built(r, target, ints(unwrapped(items))),
    }
}

/// `r` is what comes of imploding a target with lengths read from a column:
/// the fault for which the lengths are refused, or else what is made of the
/// target and the offsets of the lengths.
pub open spec fn is_implosion_by_lengths(
    r: Result<Series, ReshapeError>,
    target: Series,
    items: Seq<Option<i64>>,
) -> bool {
    match lengths_fault(items, rows(target).len() as usize) {
        Some(e) => r == Err::<Series, ReshapeError>(e),
        None => is_built(r, target, offsets_of(ints(unwrapped(items)))),
    }
}

/// `r` is what comes of imploding a target with the column `offsets`: where
/// the engine cannot cast the offsets to 64-bit integers, its refusal;
/// elsewhere what comes of imploding with the entries that the cast gives.
/// Offsets that are integers of 32 bits or 64-bit signed integers are cast
/// without change; of any others
/// the cast gives an entry for each row, and a null entry for a null row.
pub open spec fn implodes_by_offsets(
    r: Result<Series, ReshapeError>,
    target: Series,
    offsets: Series,
) -> bool {
    &&& match int64_view(offsets) {
        Some(items) => is_implosion(r, target, items),
        None => r matches Err(ReshapeError::Engine(_)),
    }
    &&& holds_int64(column_type(offsets)) ==> int64_view(offsets) == Some(int_entries(rows(offsets)))
    &&& int64_view(offsets) matches Some(items) ==> keeps_rows(items, rows(offsets))
}

/// `r` is what comes of imploding a target with the column `lengths`: where
/// the engine cannot cast the lengths to 64-bit integers, its refusal;
/// elsewhere what comes of imploding with the entries that the cast gives.
/// Lengths that are integers of 32 bits or 64-bit signed integers are cast
/// without change; of any others
/// the cast gives an entry for each row, and a null entry for a null row.
pub open spec fn implodes_by_lengths(
    r: Result<Series, ReshapeError>,
    target: Series,
    lengths: Series,
) -> bool {
    &&& match int64_view(lengths) {
        Some(items) => is_implosion_by_lengths(r, target, items),
        None => r matches Err(ReshapeError::Engine(_)),
    }
    &&& holds_int64(column_type(lengths)) ==> int64_view(lengths) == Some(int_entries(rows(lengths)))
    &&& int64_view(lengths) matches Some(items) ==> keeps_rows(items, rows(lengths))
}

/// `r` is what comes of imploding a target after a nested layout: the fault
/// for which the layout is refused, or else what is made of the target and
/// the offsets of the lengths of the layout's rows.
pub open spec fn implodes_like(
    r: Result<Series, ReshapeError>,
    target: Series,
    layout: Series,
) -> bool {
    match layout_fault(rows(layout), rows(target).len() as usize) {
        Some(e) => r == Err::<Series, ReshapeError>(e),
        None => is_built(r, target, offsets_of(list_lengths(rows(layout)))),
    }
}

/// Assembles the nested column from a target and offsets that describe it.
fn build(target: &Series, offsets: Vec<i64>) -> (r: Result<Series, ReshapeError>)
    requires
        crate::offsets::describes(ints(offsets@), rows(*target).len() as int),
    ensures
        is_built(r, *target, ints(offsets@)),
{
    if n_chunks(target) == 0 {
        return Err(ReshapeError::ShapeMismatch(Mismatch::NoChunk));
    }
    assert(ints(offsets@).len() == offsets@.len());
    let list_len = offsets.len() - 1;
    if list_len >= u32::MAX as usize {
        return Err(ReshapeError::ShapeMismatch(Mismatch::TooManyRows { rows: list_len }));
    }
    from_engine(list_series(target, offsets))
}

/// Wraps a flat column into a nested one, given the offsets as they were read
/// from a column: an entry for each boundary, `None` for a null.
pub fn implode_with_offset_values(target: &Series, items: &Vec<Option<i64>>) -> (r: Result<
    Series,
    ReshapeError,
>)
    ensures
        is_implosion(r, *target, items@),
{
    let target_len = series_len(target);
    let offsets = match check_offsets(items, target_len) {
        Ok(offsets) => offsets,
        Err(e) => {
            return Err(e);
        },
    };
    build(target, offsets)
}

/// Wraps a flat column into a nested one whose row `i` holds the rows of
/// `target` from offset `i` up to offset `i + 1`. The offsets are cast to
/// 64-bit integers first. They must hold no null, start at zero, never
/// decrease and end at the length of `target`. The target must be stored in
/// at least one chunk. The result has no null row.
pub fn implode_with_offsets(target: &Series, offsets: &Series) -> (r: Result<Series, ReshapeError>)
    ensures
        implodes_by_offsets(r, *target, *offsets),
{
    let items = match from_engine(int64_items(offsets)) {
        Ok(items) => items,
        Err(e) => {
            return Err(e);
        },
    };
    implode_with_offset_values(target, &items)
}

/// Wraps a flat column into a nested one, given the length of each row as it
/// was read from a column, `None` for a null.
pub fn implode_with_length_values(target: &Series, items: &Vec<Option<i64>>) -> (r: Result<
    Series,
    ReshapeError,
>)
    ensures
        is_implosion_by_lengths(r, *target, items@),
{
    let target_len = series_len(target);
    let offsets = match check_lengths(items, target_len) {
        Ok(offsets) => offsets,
        Err(e) => {
            return Err(e);
        },
    };
    assert(ints(offsets@).len() == offsets@.len());
    build(target, offsets)
}

/// Wraps a flat column into a nested one whose rows take the given numbers
/// of items from `target`, in order. The lengths are cast to 64-bit integers
/// first. They must hold no null and no negative entry, and add up to the
/// length of `target`. The target must be stored in at least one chunk.
pub fn implode_with_lengths(target: &Series, lengths: &Series) -> (r: Result<Series, ReshapeError>)
    ensures
        implodes_by_lengths(r, *target, *lengths),
{
    let items = match from_engine(int64_items(lengths)) {
        Ok(items) => items,
        Err(e) => {
            return Err(e);
        },
    };
    implode_with_length_values(target, &items)
}

/// `r` is the flat column of the offsets of the given lengths, without nulls
/// and under the name of `column`; or the mismatch that says where their
/// running total leaves the 64-bit range; or the error for more offsets than
/// the engine counts rows.
pub open spec fn is_offsets_column(
    r: Result<Series, ReshapeError>,
    column: Series,
    lengths: Seq<int>,
) -> bool {
    if !totals_fit(lengths) {
        r == Err::<Series, ReshapeError>(
            ReshapeError::ShapeMismatch(
                Mismatch::TotalTooLarge { at: first_overflow(lengths) as usize },
            ),
        )
    } else if lengths.len() + 1 >= u32::MAX {
        r == Err::<Series, ReshapeError>(too_many_rows(lengths.len() as int + 1))
    } else {
        &&& r is Ok
        &&& rows(r->Ok_0) == int_rows(offset_values(lengths))
        &&& int64_view(r->Ok_0) == Some(somes(offset_values(lengths)))
        &&& ints(offset_values(lengths)) == offsets_of(lengths)
        &&& column_type(r->Ok_0) is Int64
        &&& column_name(r->Ok_0) == column_name(column)
    }
}

/// A nested column without nulls has lists of the lengths that its offsets
/// buffers give.
pub proof fn lemma_extents_are_lengths(layout: Seq<Cell>, chunks: Seq<Seq<i64>>)
    requires
        crate::model::list_layout(layout, chunks),
        !has_null(layout),
    ensures
        all_lists(layout),
        extents(chunks) == list_lengths(layout),
{
    assert(extents(chunks) =~= list_lengths(layout));
}

/// The buffers that were read from a nested column are well formed.
proof fn lemma_chunks_ok(layout: Seq<Cell>, chunks: Seq<Vec<i64>>)
    requires
        crate::model::list_layout(layout, crate::offsets::chunk_views(chunks)),
    ensures
        forall|c: int| 0 <= c < chunks.len() ==> crate::offsets::chunk_ok(#[trigger] chunks[c]@),
{
    assert forall|c: int| 0 <= c < chunks.len() implies crate::offsets::chunk_ok(
        #[trigger] chunks[c]@,
    ) by {
        assert(crate::offsets::chunk_views(chunks)[c] == chunks[c]@);
    }
}

/// The offsets of a nested column as a flat column of 64-bit integers under
/// the same name: a leading zero, then the running total of the lengths of
/// its lists, one entry more than the column has rows. The length of a list
/// is what the offsets buffer of its chunk gives; for a column without nulls
/// that is the number of its items.
pub fn get_offsets(series: &Series) -> (r: Result<Series, ReshapeError>)
    ensures
        !(column_type(*series) is List) ==> r matches Err(ReshapeError::Engine(_)),
        column_type(*series) is List ==> is_offsets_column(
            r,
            *series,
            extents(native_offsets(*series)),
        ),
        column_type(*series) is List && !has_null(rows(*series)) ==> is_offsets_column(
            r,
            *series,
            list_lengths(rows(*series)),
        ),
{
    let chunks = match from_engine(list_offsets(series)) {
        Ok(chunks) => chunks,
        Err(e) => {
            return Err(e);
        },
    };
    proof {
        lemma_chunks_ok(rows(*series), chunks@);
        if !has_null(rows(*series)) {
            lemma_extents_are_lengths(rows(*series), native_offsets(*series));
        }
    }
    match join_chunks(&chunks) {
        Ok(offsets) => {
            if offsets.len() >= u32::MAX as usize {
                return Err(ReshapeError::ShapeMismatch(Mismatch::TooManyRows { rows: offsets.len() }));
            }
            Ok(int64_series(series, offsets))
        },
        Err(mismatch) => {
            proof {
                crate::offsets::lemma_overflow_unique(
                    extents(native_offsets(*series)),
                    mismatch->TotalTooLarge_at as int,
                );
            }
            Err(ReshapeError::ShapeMismatch(mismatch))
        },
    }
}

/// The reason for which a layout is refused as the shape for a target of
/// `target_len` rows, or `None` where it is accepted. A null row is looked
/// for first; then the lists must hold as many items in all as the target
/// has rows.
pub open spec fn layout_fault(layout: Seq<Cell>, target_len: usize) -> Option<ReshapeError> {
    if has_null(layout) {
        Some(ReshapeError::ComputeError(NullsIn::Layout))
    } else if !totals_fit(list_lengths(layout)) {
        Some(
            ReshapeError::ShapeMismatch(
                Mismatch::TotalTooLarge { at: first_overflow(list_lengths(layout)) as usize },
            ),
        )
    } else if flattened(layout).len() != target_len {
        Some(
            ReshapeError::ShapeMismatch(
                Mismatch::LayoutLength { layout_len: flattened(layout).len() as i64, target_len },
            ),
        )
    } else {
        None
    }
}

/// Wraps a flat column into a nested one that has the shape of `layout`: as
/// many rows, each as long as the row of `layout` at its place, filled with
/// the rows of `target` in order. `layout` must hold no null row, and as many
/// items in all as `target` has rows.
pub fn implode_like(target: &Series, layout: &Series) -> (r: Result<Series, ReshapeError>)
    ensures
        !(column_type(*layout) is List) ==> r matches Err(ReshapeError::Engine(_)),
        column_type(*layout) is List ==> implodes_like(r, *target, *layout),
        r matches Ok(list) ==> {
            &&& rows(list).len() == rows(*layout).len()
            &&& all_lists(rows(list))
            &&& list_lengths(rows(list)) == list_lengths(rows(*layout))
            &&& flattened(rows(list)) == rows(*target)
        },
{
    let chunks = match from_engine(list_offsets(layout)) {
        Ok(chunks) => chunks,
        Err(e) => {
            return Err(e);
        },
    };
    if has_nulls(layout) {
        return Err(ReshapeError::ComputeError(NullsIn::Layout));
    }
    let ghost lengths = list_lengths(rows(*layout));
    proof {
        lemma_chunks_ok(rows(*layout), chunks@);
        lemma_extents_are_lengths(rows(*layout), native_offsets(*layout));
        crate::model::lemma_flattened_len(rows(*layout));
        crate::offsets::lemma_lengths_of_offsets_of(lengths);
    }
    let offsets = match join_chunks(&chunks) {
        Ok(offsets) => offsets,
        Err(mismatch) => {
            proof {
                crate::offsets::lemma_overflow_unique(lengths, mismatch->TotalTooLarge_at as int);
            }
            return Err(ReshapeError::ShapeMismatch(mismatch));
        },
    };
    let target_len = series_len(target);
    assert(ints(offsets@).len() == offsets.len());
    let layout_len = offsets[offsets.len() - 1];
    assert(layout_len == ints(offsets@).last());
    if layout_len < 0 || layout_len as u64 != target_len as u64 {
        return Err(ReshapeError::ShapeMismatch(Mismatch::LayoutLength { layout_len, target_len }));
    }
    proof {
        crate::offsets::lemma_offsets_of_non_negative(lengths);
        crate::model::lemma_imploded_shape(rows(*target), ints(offsets@));
    }
    build(target, offsets)
}

/// The reason for which this library refuses to read arrays of `width` items
/// as structs of `fields` fields, over `rows` rows stored in `chunks` chunks,
/// or `None` where it does not: there is no chunk, or the two widths differ,
/// or the engine cannot count the rows, or it cannot reach all the items.
pub open spec fn cast_fault(chunks: nat, width: nat, fields: nat, rows: nat) -> Option<
    ReshapeError,
> {
    if chunks == 0 {
        Some(no_chunk())
    } else if width != fields {
        Some(
            ReshapeError::ShapeMismatch(
                Mismatch::Width { array_width: width as usize, struct_width: fields as usize },
            ),
        )
    } else if rows >= u32::MAX {
        Some(too_many_rows(rows as int))
    } else if rows * width > u32::MAX {
        Some(
            ReshapeError::ShapeMismatch(
                Mismatch::TooManyItems { rows: rows as usize, width: width as usize },
            ),
        )
    } else {
        None
    }
}

/// The engine gives the items at every position of the arrays of `target`.
pub open spec fn all_gathered(target: Series, width: nat) -> bool {
    forall|j: int| 0 <= j < width ==> (#[trigger] gathered(target, j)) is Some
}

/// Reads a column of arrays of fixed width as a column of structs under the
/// same name: field `j` of row `i` is item `j` of array `i`, and a row is
/// null exactly where the array is null. `struct_like` gives the type, and
/// nothing else of it is read; it must have as many fields as the arrays are
/// wide. The engine then decides whether the items can stand as those
/// fields; they can where the items are truth values, integers of 32 or 64
/// bits or text, and every field is declared to hold what the items are.
pub fn cast_arr_to_struct(target: &Series, struct_like: &Series) -> (r: Result<
    Series,
    ReshapeError,
>)
    ensures
        !(column_type(*target) is Array) || !(column_type(*struct_like) is Struct) ==> r matches Err(
            ReshapeError::Engine(_),
        ),
        column_type(*target) is Array && column_type(*struct_like) is Struct ==> match cast_fault(
            chunk_count(*target),
            column_type(*target)->width,
            column_type(*struct_like)->fields.len(),
            rows(*target).len(),
        ) {
            Some(e) => r == Err::<Series, ReshapeError>(e),
            None => {
                &&& r is Ok <==> all_gathered(*target, column_type(*target)->width) && struct_fits(
                    *target,
                    column_type(*struct_like),
                )
                &&& column_type(*target)->width > 0 && stored_as_declared(
                    *column_type(*target)->Array_item,
                ) && all_of_type(
                    column_type(*struct_like)->fields,
                    *column_type(*target)->Array_item,
                ) ==> r is Ok
                &&& match r {
                    Ok(out) => {
                        &&& is_struct_cast(rows(out), rows(*target))
                        &&& column_type(out) == column_type(*struct_like)
                        &&& column_name(out) == column_name(*target)
                    },
                    Err(e) => e is Engine,
                }
            },
        },
{
    let array_width = match from_engine(array_width(target)) {
        Ok(width) => width,
        Err(e) => {
            return Err(e);
        },
    };
    let struct_width = match from_engine(struct_width(struct_like)) {
        Ok(width) => width,
        Err(e) => {
            return Err(e);
        },
    };
    if n_chunks(target) == 0 {
        return Err(ReshapeError::ShapeMismatch(Mismatch::NoChunk));
    }
    if array_width != struct_width {
        return Err(ReshapeError::ShapeMismatch(Mismatch::Width { array_width, struct_width }));
    }
    let target_len = series_len(target);
    if target_len >= u32::MAX as usize {
        return Err(ReshapeError::ShapeMismatch(Mismatch::TooManyRows { rows: target_len }));
    }
    let reachable = match target_len.checked_mul(array_width) {
        Some(items) => items <= u32::MAX as usize,
        None => false,
    };
    if !reachable {
        return Err(
            ReshapeError::ShapeMismatch(
                Mismatch::TooManyItems { rows: target_len, width: array_width },
            ),
        );
    }
    let mut fields: Vec<Series> = Vec::new();
    let mut position: usize = 0;
    while position < array_width
        invariant
            position <= array_width,
            fields.len() == position,
            column_type(*target) is Array,
            column_type(*target)->width == array_width,
            column_type(*struct_like) is Struct,
            column_type(*struct_like)->fields.len() == array_width,
            rows(*target).len() == target_len,
            target_len < u32::MAX,
            target_len * array_width <= u32::MAX,
            chunk_count(*target) >= 1,
            are_gathered(fields@, *target),
            forall|j: int|
                0 <= j < position ==> is_position(#[trigger] rows(fields[j]), rows(*target), j),
        decreases array_width - position,
    {
        let field = match from_engine(array_position(target, position)) {
            Ok(field) => field,
            Err(e) => {
                assert(gathered(*target, position as int) is None);
                return Err(e);
            },
        };
        fields.push(field);
        position += 1;
    }
    assert(all_gathered(*target, array_width as nat)) by {
        assert forall|j: int| 0 <= j < array_width implies (#[trigger] gathered(*target, j))
            is Some by {
            assert(gathered(*target, j) == Some(fields@[j]));
        }
    }
    let built = from_engine(struct_series(target, struct_like, &fields));
    proof {
        if built is Ok {
            let target_rows = rows(*target);
            let field_rows = rows_of_all(fields@);
            assert forall|i: int| 0 <= i < target_rows.len() && !(target_rows[i] is Null) implies
                crate::model::struct_row(field_rows, i) == Cell::Struct(
                items_of(target_rows[i]),
            ) by {
                let made = Seq::new(field_rows.len(), |j: int| field_rows[j][i]);
                assert forall|j: int| 0 <= j < made.len() implies made[j] == items_of(
                    target_rows[i],
                )[j] by {
                    assert(is_position(rows(fields[j]), target_rows, j));
                }
                assert(made =~= items_of(target_rows[i]));
            }
        }
    }
    built
}

/// Offsets validity, of columns: `implode_with_offsets` gives a column only
/// for offsets that the engine can cast and that then hold no null, start at
/// zero, never decrease and end at the length of the target. Cast offsets
/// with a null are refused as an error of computation, and all others that
/// fail one of these as a mismatch of shape.
pub proof fn law_offsets_validity(target: Series, offsets: Series, r: Result<Series, ReshapeError>)
    requires
        implodes_by_offsets(r, target, offsets),
        rows(target).len() <= usize::MAX,
    ensures
        r is Ok ==> int64_view(offsets) is Some && !crate::offsets::has_null_entry(
            int64_view(offsets)->0,
        ) && crate::offsets::describes(
            ints(unwrapped(int64_view(offsets)->0)),
            rows(target).len() as int,
        ),
        int64_view(offsets) is Some && crate::offsets::has_null_entry(int64_view(offsets)->0) ==> r
            == Err::<Series, ReshapeError>(ReshapeError::ComputeError(NullsIn::Offsets)),
        int64_view(offsets) is Some && !crate::offsets::has_null_entry(int64_view(offsets)->0)
            && !crate::offsets::describes(
            ints(unwrapped(int64_view(offsets)->0)),
            rows(target).len() as int,
        ) ==> r matches Err(ReshapeError::ShapeMismatch(_)),
{
    if int64_view(offsets) is Some {
        law_offset_values_validity(target, int64_view(offsets)->0, r);
    }
}

/// Offsets validity, of entries: a column comes out only of offsets that
/// hold no null, start at zero, never decrease and end at the length of the
/// target. Offsets with a null are refused as an error of computation, and
/// all others that fail one of these as a mismatch of shape.
pub proof fn law_offset_values_validity(
    target: Series,
    items: Seq<Option<i64>>,
    r: Result<Series, ReshapeError>,
)
    requires
        is_implosion(r, target, items),
        rows(target).len() <= usize::MAX,
    ensures
        r is Ok ==> !crate::offsets::has_null_entry(items) && crate::offsets::describes(
            ints(unwrapped(items)),
            rows(target).len() as int,
        ),
        crate::offsets::has_null_entry(items) ==> r == Err::<Series, ReshapeError>(
            ReshapeError::ComputeError(NullsIn::Offsets),
        ),
        !crate::offsets::has_null_entry(items) && !crate::offsets::describes(
            ints(unwrapped(items)),
            rows(target).len() as int,
        ) ==> r matches Err(ReshapeError::ShapeMismatch(_)),
{
    crate::offsets::lemma_accepted_iff_valid(items, rows(target).len() as usize);
}

/// Round trip: where a nested column without null rows is flattened, and the
/// flat column is imploded again with the offsets that `get_offsets` reads
/// from the nested column, a column comes out exactly when the flat column
/// nests, and it has the rows of the nested column.
pub proof fn law_round_trip(
    nested: Series,
    flat: Series,
    offsets: Series,
    r: Result<Series, ReshapeError>,
)
    requires
        !has_null(rows(nested)),
        all_lists(rows(nested)),
        rows(flat) == flattened(rows(nested)),
        rows(flat).len() <= usize::MAX,
        chunk_count(flat) >= 1,
        is_offsets_column(Ok(offsets), nested, list_lengths(rows(nested))),
        implodes_by_offsets(r, flat, offsets),
    ensures
        r is Ok <==> nests(flat),
        stored_as_declared(column_type(flat)) ==> r is Ok,
        r matches Ok(list) ==> rows(list) == rows(nested) && rows(list).len() == rows(nested).len()
            && !has_null(rows(list)),
        r matches Err(e) ==> e is Engine,
{
    let lengths = list_lengths(rows(nested));
    let items = int64_view(offsets)->0;
    crate::model::lemma_round_trip(rows(nested));
    assert(unwrapped(items) =~= offset_values(lengths));
    assert(!crate::offsets::has_null_entry(items));
    crate::offsets::lemma_accepted_iff_valid(items, rows(flat).len() as usize);
}

/// Two outcomes end alike: both are columns with the same rows, type and
/// name, or both are errors, the same error where the library refuses and an
/// error of the engine where the engine does.
pub open spec fn end_alike(a: Result<Series, ReshapeError>, b: Result<Series, ReshapeError>) -> bool {
    match a {
        Ok(one) => {
            &&& b is Ok
            &&& rows(one) == rows(b->Ok_0)
            &&& column_type(one) == column_type(b->Ok_0)
            &&& column_name(one) == column_name(b->Ok_0)
        },
        Err(e) => {
            &&& b is Err
            &&& (e is Engine && b->Err_0 is Engine) || b == a
        },
    }
}

/// Lengths and offsets are two ways to say one thing: where the lengths hold
/// no null and their running totals are 64-bit offsets, imploding by the
/// lengths and imploding by the offsets of the lengths (a leading zero, then
/// the running totals) end alike.
pub proof fn law_lengths_as_offset_values(
    target: Series,
    lengths: Seq<Option<i64>>,
    by_lengths: Result<Series, ReshapeError>,
    by_offsets: Result<Series, ReshapeError>,
)
    requires
        !crate::offsets::has_null_entry(lengths),
        totals_fit(ints(unwrapped(lengths))),
        is_implosion_by_lengths(by_lengths, target, lengths),
        is_implosion(by_offsets, target, somes(offset_values(ints(unwrapped(lengths))))),
    ensures
        end_alike(by_lengths, by_offsets),
{
    let values = unwrapped(lengths);
    let offsets = offset_values(ints(values));
    crate::offsets::lemma_lengths_as_offsets(values, rows(target).len() as usize);
    assert(unwrapped(somes(offsets)) =~= offsets);
    assert(!crate::offsets::has_null_entry(somes(offsets)));
    assert(somes(offsets).len() - 1 == lengths.len());
    assert(ints(values).len() == lengths.len());
}

/// The same of columns: where a column of lengths is cast to entries without
/// a null whose running totals are 64-bit offsets, and a column of 64-bit
/// integers holds the offsets of those lengths, `implode_with_lengths` with
/// the first and `implode_with_offsets` with the second end alike.
pub proof fn law_lengths_as_offsets(
    target: Series,
    lengths: Series,
    offsets: Series,
    by_lengths: Result<Series, ReshapeError>,
    by_offsets: Result<Series, ReshapeError>,
)
    requires
        int64_view(lengths) is Some,
        !crate::offsets::has_null_entry(int64_view(lengths)->0),
        totals_fit(ints(unwrapped(int64_view(lengths)->0))),
        column_type(offsets) is Int64,
        rows(offsets) == int_rows(offset_values(ints(unwrapped(int64_view(lengths)->0)))),
        implodes_by_lengths(by_lengths, target, lengths),
        implodes_by_offsets(by_offsets, target, offsets),
    ensures
        end_alike(by_lengths, by_offsets),
{
    let items = int64_view(lengths)->0;
    let values = offset_values(ints(unwrapped(items)));
    assert(int_entries(int_rows(values)) =~= somes(values));
    law_lengths_as_offset_values(target, items, by_lengths, by_offsets);
}

/// Imploding after a layout is imploding with the layout's offsets: where a
/// nested layout without null rows holds as many items as the target has
/// rows, `implode_like` with the layout and `implode_with_offsets` with the
/// column that `get_offsets` reads from the layout end alike.
pub proof fn law_like_as_offsets(
    target: Series,
    layout: Series,
    offsets: Series,
    by_layout: Result<Series, ReshapeError>,
    by_offsets: Result<Series, ReshapeError>,
)
    requires
        !has_null(rows(layout)),
        all_lists(rows(layout)),
        flattened(rows(layout)).len() == rows(target).len(),
        rows(target).len() <= usize::MAX,
        chunk_count(target) >= 1,
        is_offsets_column(Ok(offsets), layout, list_lengths(rows(layout))),
        implodes_like(by_layout, target, layout),
        implodes_by_offsets(by_offsets, target, offsets),
    ensures
        end_alike(by_layout, by_offsets),
        by_layout is Ok <==> nests(target),
{
    let lengths = list_lengths(rows(layout));
    let items = int64_view(offsets)->0;
    assert(unwrapped(items) =~= offset_values(lengths));
    assert(!crate::offsets::has_null_entry(items));
    crate::model::lemma_flattened_len(rows(layout));
    crate::offsets::lemma_lengths_of_offsets_of(lengths);
    crate::offsets::lemma_offsets_of_non_negative(lengths);
    crate::offsets::lemma_accepted_iff_valid(items, rows(target).len() as usize);
}

/// Imploding the flattened rows of a nested column after the column itself
/// gives its rows back: where the column has no null rows, a column comes
/// out exactly when the flat column nests, and it has the rows of the nested
/// column.
pub proof fn law_like_round_trip(nested: Series, flat: Series, r: Result<Series, ReshapeError>)
    requires
        !has_null(rows(nested)),
        all_lists(rows(nested)),
        rows(nested).len() < u32::MAX,
        rows(flat) == flattened(rows(nested)),
        rows(flat).len() <= i64::MAX,
        rows(flat).len() <= usize::MAX,
        chunk_count(flat) >= 1,
        implodes_like(r, flat, nested),
    ensures
        r is Ok <==> nests(flat),
        stored_as_declared(column_type(flat)) ==> r is Ok,
        r matches Ok(list) ==> rows(list) == rows(nested),
        r matches Err(e) ==> e is Engine,
{
    let lengths = list_lengths(rows(nested));
    crate::model::lemma_round_trip(rows(nested));
    crate::model::lemma_flattened_len(rows(nested));
    crate::offsets::lemma_offsets_of_non_negative(lengths);
    assert(totals_fit(lengths)) by {
        let offsets = offsets_of(lengths);
        assert forall|k: int| 0 <= k <= lengths.len() implies i64::MIN
            <= #[trigger] crate::offsets::prefix_sum(lengths, k) <= i64::MAX by {
            assert(offsets[0] <= offsets[k] <= offsets[lengths.len() as int]);
        }
    }
}

/// Shape copy: the nested column that the lengths of a layout without nulls
/// make of a target has a row for each row of the layout, as long as that
/// row, and its rows laid end to end are the target.
pub proof fn law_shape_copy(target: Seq<Cell>, layout: Seq<Cell>)
    requires
        all_lists(layout),
        flattened(layout).len() == target.len(),
    ensures
        ({
            let out = imploded(target, offsets_of(list_lengths(layout)));
            &&& out.len() == layout.len()
            &&& all_lists(out)
            &&& list_lengths(out) == list_lengths(layout)
            &&& flattened(out) == target
        }),
{
    let lengths = list_lengths(layout);
    crate::model::lemma_flattened_len(layout);
    crate::offsets::lemma_lengths_of_offsets_of(lengths);
    crate::offsets::lemma_offsets_of_non_negative(lengths);
    crate::model::lemma_imploded_shape(target, offsets_of(lengths));
}

} // verus!
