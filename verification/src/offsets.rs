//! Offsets and lengths as plain integers: what makes offsets valid, how
//! lengths become offsets, and how the offsets buffers of several chunks
//! become one sequence.

use crate::error::Mismatch;
use crate::error::NullsIn;
use crate::error::ReshapeError;
use vstd::prelude::*;

verus! {

/// A sequence of machine integers as mathematical integers.
pub open spec fn ints(s: Seq<i64>) -> Seq<int> {
    Seq::new(s.len(), |i: int| s[i] as int)
}

/// A sequence of integers as a sequence of entries none of which is null.
pub open spec fn somes(s: Seq<i64>) -> Seq<Option<i64>> {
    Seq::new(s.len(), |i: int| Some(s[i]))
}

/// The sum of the first `n` lengths.
pub open spec fn prefix_sum(lengths: Seq<int>, n: int) -> int
    decreases n,
{
    if n <= 0 {
        0
    } else {
        prefix_sum(lengths, n - 1) + lengths[n - 1]
    }
}

/// The offsets that describe groups of the given lengths laid end to end:
/// a leading zero, then the running total after each group.
pub open spec fn offsets_of(lengths: Seq<int>) -> Seq<int> {
    Seq::new(lengths.len() + 1, |i: int| prefix_sum(lengths, i))
}

/// The length of each group that the offsets describe.
pub open spec fn lengths_of(offsets: Seq<int>) -> Seq<int> {
    Seq::new((offsets.len() - 1) as nat, |i: int| offsets[i + 1] - offsets[i])
}

/// No entry is smaller than an earlier one.
pub open spec fn non_decreasing(offsets: Seq<int>) -> bool {
    forall|i: int, j: int| 0 <= i <= j < offsets.len() ==> offsets[i] <= offsets[j]
}

/// The offsets split a buffer of `len` items into groups: they start at zero,
/// never decrease, and end at `len`.
pub open spec fn describes(offsets: Seq<int>, len: int) -> bool {
    &&& offsets.len() > 0
    &&& offsets[0] == 0
    &&& offsets.last() == len
    &&& non_decreasing(offsets)
}

/// Every running total of the lengths is a 64-bit offset.
pub open spec fn totals_fit(lengths: Seq<int>) -> bool {
    forall|k: int| 0 <= k <= lengths.len() ==> i64::MIN <= #[trigger] prefix_sum(lengths, k) <= i64::MAX
}

/// Some entry is null.
pub open spec fn has_null_entry(items: Seq<Option<i64>>) -> bool {
    exists|i: int| 0 <= i < items.len() && items[i] is None
}

/// The entries without their null markers. Where an entry is null, nothing
/// is said of the value that stands for it.
pub open spec fn unwrapped(items: Seq<Option<i64>>) -> Seq<i64> {
    Seq::new(items.len(), |i: int| items[i]->0)
}

/// The entry after position `at` is smaller than the one at `at`.
pub open spec fn descends_at(offsets: Seq<int>, at: int) -> bool {
    0 <= at && at + 1 < offsets.len() && offsets[at + 1] < offsets[at]
}

/// `at` is the first position after which the offsets descend.
pub open spec fn is_first_descent(offsets: Seq<int>, at: int) -> bool {
    descends_at(offsets, at) && forall|i: int| 0 <= i < at ==> !descends_at(offsets, i)
}

/// The first position after which the offsets descend, where there is one.
pub open spec fn first_descent(offsets: Seq<int>) -> int {
    choose|at: int| is_first_descent(offsets, at)
}

/// What keeps offsets from describing a target of `target_len` rows, or
/// `None` where they describe it. The tests come in this order: the first
/// entry, the last entry, the order of the entries.
pub open spec fn offsets_mismatch(offsets: Seq<i64>, target_len: usize) -> Option<Mismatch> {
    if offsets.len() == 0 {
        Some(Mismatch::FirstOffset { first: None })
    } else if offsets[0] != 0 {
        Some(Mismatch::FirstOffset { first: Some(offsets[0]) })
    } else if offsets.last() != target_len {
        Some(Mismatch::LastOffset { last: offsets.last(), target_len })
    } else if !non_decreasing(ints(offsets)) {
        Some(Mismatch::Decreasing { at: first_descent(ints(offsets)) as usize })
    } else {
        None
    }
}

/// The reason for which offsets read from a column are refused as a
/// description of a target of `target_len` rows, or `None` where they are
/// accepted. A null is looked for first, then the offsets are held against
/// the target.
pub open spec fn offsets_fault(items: Seq<Option<i64>>, target_len: usize) -> Option<ReshapeError> {
    if has_null_entry(items) {
        Some(ReshapeError::ComputeError(NullsIn::Offsets))
    } else {
        match offsets_mismatch(unwrapped(items), target_len) {
            Some(mismatch) => Some(ReshapeError::ShapeMismatch(mismatch)),
            None => None,
        }
    }
}

/// Offsets without a descent between neighbours never decrease.
pub proof fn lemma_no_descent_is_non_decreasing(offsets: Seq<int>)
    requires
        forall|i: int| 0 <= i < offsets.len() - 1 ==> !descends_at(offsets, i),
    ensures
        non_decreasing(offsets),
{
    assert forall|i: int, j: int| 0 <= i <= j < offsets.len() implies offsets[i] <= offsets[j] by {
        lemma_run_without_descent(offsets, i, j);
    }
}

proof fn lemma_run_without_descent(offsets: Seq<int>, i: int, j: int)
    requires
        0 <= i <= j < offsets.len(),
        forall|k: int| i <= k < j ==> !descends_at(offsets, k),
    ensures
        offsets[i] <= offsets[j],
    decreases j - i,
{
    if i < j {
        lemma_run_without_descent(offsets, i, j - 1);
        assert(!descends_at(offsets, j - 1));
    }
}

/// There is at most one first descent, and offsets that have one decrease.
pub proof fn lemma_first_descent_unique(offsets: Seq<int>, at: int)
    requires
        is_first_descent(offsets, at),
    ensures
        first_descent(offsets) == at,
        !non_decreasing(offsets),
{
    let other = first_descent(offsets);
    assert(is_first_descent(offsets, other));
    if other < at {
        assert(!descends_at(offsets, other));
    }
    if at < other {
        assert(!descends_at(offsets, at));
    }
}

/// The entries of a column without nulls, or `None` where one is null.
pub fn strip_nulls(items: &Vec<Option<i64>>) -> (r: Option<Vec<i64>>)
    ensures
        r is None <==> has_null_entry(items@),
        r matches Some(v) ==> v@ == unwrapped(items@) && somes(v@) == items@,
{
    let mut values: Vec<i64> = Vec::new();
    let mut i: usize = 0;
    while i < items.len()
        invariant
            i <= items.len(),
            values.len() == i,
            forall|k: int| 0 <= k < i ==> items[k] == Some(values[k]),
        decreases items.len() - i,
    {
        match items[i] {
            Some(v) => {
                values.push(v);
            },
            None => {
                return None;
            },
        }
        i += 1;
    }
    assert(somes(values@) =~= items@);
    assert(values@ =~= unwrapped(items@));
    Some(values)
}

/// Holds offsets against the target that they are to split.
pub fn find_mismatch(offsets: &Vec<i64>, target_len: usize) -> (r: Option<Mismatch>)
    ensures
        r == offsets_mismatch(offsets@, target_len),
{
    let n = offsets.len();
    if n == 0 {
        return Some(Mismatch::FirstOffset { first: None });
    }
    if offsets[0] != 0 {
        return Some(Mismatch::FirstOffset { first: Some(offsets[0]) });
    }
    let last = offsets[n - 1];
    if last < 0 || last as u64 != target_len as u64 {
        return Some(Mismatch::LastOffset { last, target_len });
    }
    let mut i: usize = 0;
    while i + 1 < n
        invariant
            n == offsets.len(),
            i < n,
            offsets[0] == 0,
            offsets[n - 1] == target_len,
            forall|k: int| 0 <= k < i ==> !descends_at(ints(offsets@), k),
        decreases n - i,
    {
        if offsets[i + 1] < offsets[i] {
            proof {
                assert(descends_at(ints(offsets@), i as int));
                lemma_first_descent_unique(ints(offsets@), i as int);
            }
            return Some(Mismatch::Decreasing { at: i });
        }
        i += 1;
    }
    proof {
        lemma_no_descent_is_non_decreasing(ints(offsets@));
    }
    None
}

/// Tests offsets read from a column against the target that they are to
/// split, and hands them back without their null markers where they are
/// accepted.
pub fn check_offsets(items: &Vec<Option<i64>>, target_len: usize) -> (r: Result<
    Vec<i64>,
    ReshapeError,
>)
    ensures
        match offsets_fault(items@, target_len) {
            Some(e) => r == Err::<Vec<i64>, ReshapeError>(e),
            None => r is Ok && r->Ok_0@ == unwrapped(items@) && describes(
                ints(r->Ok_0@),
                target_len as int,
            ),
        },
{
    let values = match strip_nulls(items) {
        Some(values) => values,
        None => {
            return Err(ReshapeError::ComputeError(NullsIn::Offsets));
        },
    };
    match find_mismatch(&values, target_len) {
        Some(mismatch) => Err(ReshapeError::ShapeMismatch(mismatch)),
        None => Ok(values),
    }
}

/// Offsets are accepted exactly when they hold no null, start at zero, never
/// decrease and end at the length of the target. Nulls are refused as an
/// error of computation, every other fault as a mismatch of shape.
pub proof fn lemma_accepted_iff_valid(items: Seq<Option<i64>>, target_len: usize)
    ensures
        offsets_fault(items, target_len) is None <==> !has_null_entry(items) && describes(
            ints(unwrapped(items)),
            target_len as int,
        ),
        has_null_entry(items) <==> offsets_fault(items, target_len) == Some(
            ReshapeError::ComputeError(NullsIn::Offsets),
        ),
        !has_null_entry(items) && !describes(ints(unwrapped(items)), target_len as int)
            <==> offsets_fault(items, target_len) matches Some(ReshapeError::ShapeMismatch(_)),
{
}

/// A value that a 64-bit offset can hold.
pub open spec fn fits(total: int) -> bool {
    i64::MIN <= total <= i64::MAX
}

/// The running total leaves the 64-bit range with the length at position
/// `at`, and not before.
pub open spec fn overflows_at(lengths: Seq<int>, at: int) -> bool {
    &&& 0 <= at < lengths.len()
    &&& !fits(prefix_sum(lengths, at + 1))
    &&& forall|k: int| 0 <= k <= at ==> fits(#[trigger] prefix_sum(lengths, k))
}

/// The offsets of the lengths as 64-bit integers: a leading zero, then the
/// running totals.
pub open spec fn offset_values(lengths: Seq<int>) -> Seq<i64> {
    Seq::new(lengths.len() + 1, |i: int| prefix_sum(lengths, i) as i64)
}

/// Where every running total is a 64-bit offset, the 64-bit offsets of
/// lengths are their offsets.
pub proof fn lemma_offset_values(lengths: Seq<int>)
    requires
        totals_fit(lengths),
    ensures
        ints(offset_values(lengths)) == offsets_of(lengths),
{
    assert forall|i: int| 0 <= i <= lengths.len() implies ints(offset_values(lengths))[i]
        == offsets_of(lengths)[i] by {
        assert(fits(prefix_sum(lengths, i)));
    }
    assert(ints(offset_values(lengths)) =~= offsets_of(lengths));
}

/// 64-bit offsets that are the offsets of lengths are their 64-bit offsets.
pub proof fn lemma_offset_values_unique(offsets: Seq<i64>, lengths: Seq<int>)
    requires
        ints(offsets) == offsets_of(lengths),
    ensures
        offsets == offset_values(lengths),
{
    assert(ints(offsets).len() == offsets.len());
    assert(offsets_of(lengths).len() == lengths.len() + 1);
    assert forall|i: int| 0 <= i < offsets.len() implies offsets[i] == offset_values(lengths)[i] by {
        assert(ints(offsets)[i] == offsets[i]);
        assert(offsets_of(lengths)[i] == prefix_sum(lengths, i));
    }
    assert(offsets =~= offset_values(lengths));
}

/// The offsets of groups with the given lengths: a leading zero, then the
/// running total after each length. Fails where a running total is no 64-bit
/// integer, and says at which length.
pub fn offsets_from_lengths(lengths: &Vec<i64>) -> (r: Result<Vec<i64>, Mismatch>)
    ensures
        match r {
            Ok(offsets) => totals_fit(ints(lengths@)) && offsets@ == offset_values(ints(lengths@))
                && ints(offsets@) == offsets_of(ints(lengths@)),
            Err(e) => e matches Mismatch::TotalTooLarge { at } && overflows_at(
                ints(lengths@),
                at as int,
            ),
        },
{
    let n = lengths.len();
    let mut offsets: Vec<i64> = Vec::new();
    offsets.push(0);
    let mut total: i64 = 0;
    let mut i: usize = 0;
    while i < n
        invariant
            n == lengths.len(),
            i <= n,
            offsets.len() == i + 1,
            total == prefix_sum(ints(lengths@), i as int),
            forall|k: int| 0 <= k <= i ==> offsets[k] == #[trigger] prefix_sum(ints(lengths@), k),
        decreases n - i,
    {
        assert(ints(lengths@)[i as int] == lengths[i as int]);
        match total.checked_add(lengths[i]) {
            Some(next) => {
                total = next;
                offsets.push(next);
            },
            None => {
                return Err(Mismatch::TotalTooLarge { at: i });
            },
        }
        i += 1;
    }
    assert(ints(offsets@) =~= offsets_of(ints(lengths@)));
    proof {
        lemma_offset_values_unique(offsets@, ints(lengths@));
    }
    Ok(offsets)
}

/// The running total of the lengths that offsets describe is the distance
/// from the first offset.
pub proof fn lemma_prefix_sum_of_lengths(offsets: Seq<int>, i: int)
    requires
        0 <= i < offsets.len(),
    ensures
        prefix_sum(lengths_of(offsets), i) == offsets[i] - offsets[0],
    decreases i,
{
    if i > 0 {
        lemma_prefix_sum_of_lengths(offsets, i - 1);
    }
}

/// Offsets that start at zero are the offsets of the lengths they describe.
pub proof fn lemma_offsets_of_lengths_of(offsets: Seq<int>)
    requires
        offsets.len() > 0,
        offsets[0] == 0,
    ensures
        offsets_of(lengths_of(offsets)) == offsets,
{
    assert forall|i: int| 0 <= i < offsets.len() implies offsets_of(lengths_of(offsets))[i]
        == offsets[i] by {
        lemma_prefix_sum_of_lengths(offsets, i);
    }
    assert(offsets_of(lengths_of(offsets)) =~= offsets);
}

/// The lengths that the offsets of some lengths describe are those lengths.
pub proof fn lemma_lengths_of_offsets_of(lengths: Seq<int>)
    ensures
        lengths_of(offsets_of(lengths)) == lengths,
        offsets_of(lengths).len() == lengths.len() + 1,
        offsets_of(lengths)[0] == 0,
        offsets_of(lengths).last() == prefix_sum(lengths, lengths.len() as int),
{
    assert forall|i: int| 0 <= i < lengths.len() implies lengths_of(offsets_of(lengths))[i]
        == lengths[i] by {
        assert(prefix_sum(lengths, i + 1) == prefix_sum(lengths, i) + lengths[i]);
    }
    assert(lengths_of(offsets_of(lengths)) =~= lengths);
}

/// The offsets of lengths none of which is negative never decrease.
pub proof fn lemma_offsets_of_non_negative(lengths: Seq<int>)
    requires
        forall|i: int| 0 <= i < lengths.len() ==> lengths[i] >= 0,
    ensures
        non_decreasing(offsets_of(lengths)),
{
    let offsets = offsets_of(lengths);
    assert forall|i: int| 0 <= i < offsets.len() - 1 implies !descends_at(offsets, i) by {
        assert(prefix_sum(lengths, i + 1) == prefix_sum(lengths, i) + lengths[i]);
    }
    lemma_no_descent_is_non_decreasing(offsets);
}

/// The offsets buffer of one chunk of a nested column is never empty, holds
/// no negative entry and never decreases. Its first entry need not be zero.
pub open spec fn chunk_ok(chunk: Seq<i64>) -> bool {
    &&& chunk.len() > 0
    &&& chunk[0] >= 0
    &&& non_decreasing(ints(chunk))
}

/// The buffers of a vector of chunks.
pub open spec fn chunk_views(chunks: Seq<Vec<i64>>) -> Seq<Seq<i64>> {
    Seq::new(chunks.len(), |c: int| chunks[c]@)
}

/// The length of every list of a nested column, chunk after chunk, as its
/// offsets buffers give it.
pub open spec fn extents(chunks: Seq<Seq<i64>>) -> Seq<int>
    decreases chunks.len(),
{
    if chunks.len() == 0 {
        Seq::empty()
    } else {
        extents(chunks.drop_last()) + lengths_of(ints(chunks.last()))
    }
}

/// The offsets of one chunk moved to a zero base: the first entry is taken
/// from every entry, in a fresh buffer.
pub fn rebase(chunk: &Vec<i64>) -> (r: Vec<i64>)
    requires
        chunk_ok(chunk@),
    ensures
        r.len() == chunk.len(),
        forall|i: int| 0 <= i < r.len() ==> r[i] == chunk[i] - chunk[0],
        ints(r@) == offsets_of(lengths_of(ints(chunk@))),
{
    let base = chunk[0];
    let mut out: Vec<i64> = Vec::new();
    let mut i: usize = 0;
    while i < chunk.len()
        invariant
            i <= chunk.len(),
            out.len() == i,
            chunk_ok(chunk@),
            base == chunk[0],
            forall|k: int| 0 <= k < i ==> out[k] == chunk[k] - chunk[0],
        decreases chunk.len() - i,
    {
        assert(ints(chunk@)[0] <= ints(chunk@)[i as int]);
        out.push(chunk[i] - base);
        i += 1;
    }
    proof {
        let offsets = ints(chunk@);
        assert forall|k: int| 0 <= k < out.len() implies ints(out@)[k] == offsets_of(
            lengths_of(offsets),
        )[k] by {
            lemma_prefix_sum_of_lengths(offsets, k);
        }
        assert(ints(out@) =~= offsets_of(lengths_of(offsets)));
    }
    out
}

/// The lengths of the lists of one chunk, in a fresh buffer.
fn chunk_lengths(chunk: &Vec<i64>) -> (r: Vec<i64>)
    requires
        chunk_ok(chunk@),
    ensures
        ints(r@) == lengths_of(ints(chunk@)),
{
    let mut out: Vec<i64> = Vec::new();
    let mut k: usize = 0;
    while k + 1 < chunk.len()
        invariant
            k < chunk.len(),
            out.len() == k,
            chunk_ok(chunk@),
            forall|j: int| 0 <= j < k ==> out[j] == chunk[j + 1] - chunk[j],
        decreases chunk.len() - k,
    {
        assert(ints(chunk@)[0] <= ints(chunk@)[k as int] <= ints(chunk@)[k + 1]);
        out.push(chunk[k + 1] - chunk[k]);
        k += 1;
    }
    assert(ints(out@) =~= lengths_of(ints(chunk@)));
    out
}

/// One zero-based offsets sequence for a nested column that is stored in
/// several chunks. A single chunk whose buffer starts at zero is handed back
/// as it is, and one that starts elsewhere is moved to a zero base. For
/// several chunks the lengths of all lists are summed anew, in their order.
/// Fails where the total leaves the 64-bit range.
pub fn join_chunks(chunks: &Vec<Vec<i64>>) -> (r: Result<Vec<i64>, Mismatch>)
    requires
        forall|c: int| 0 <= c < chunks.len() ==> chunk_ok(#[trigger] chunks[c]@),
    ensures
        match r {
            Ok(offsets) => totals_fit(extents(chunk_views(chunks@))) && offsets@ == offset_values(
                extents(chunk_views(chunks@)),
            ) && ints(offsets@) == offsets_of(extents(chunk_views(chunks@))),
            Err(e) => e matches Mismatch::TotalTooLarge { at } && overflows_at(
                extents(chunk_views(chunks@)),
                at as int,
            ),
        },
{
    let ghost views = chunk_views(chunks@);
    if chunks.len() == 1 {
        let only = &chunks[0];
        proof {
            assert(views.drop_last() =~= Seq::<Seq<i64>>::empty());
            assert(extents(views.drop_last()) =~= Seq::<int>::empty());
            assert(views.last() == only@);
            assert(extents(views) =~= lengths_of(ints(only@)));
            lemma_single_chunk_fits(only@);
        }
        if only[0] == 0 {
            proof {
                lemma_offsets_of_lengths_of(ints(only@));
                lemma_offset_values_unique(only@, extents(views));
            }
            return Ok(only.clone());
        }
        let moved = rebase(only);
        proof {
            lemma_offset_values_unique(moved@, extents(views));
        }
        return Ok(moved);
    }
    let mut lengths: Vec<i64> = Vec::new();
    let mut c: usize = 0;
    while c < chunks.len()
        invariant
            c <= chunks.len(),
            views == chunk_views(chunks@),
            forall|d: int| 0 <= d < chunks.len() ==> chunk_ok(#[trigger] chunks[d]@),
            ints(lengths@) == extents(views.take(c as int)),
        decreases chunks.len() - c,
    {
        let mut part = chunk_lengths(&chunks[c]);
        proof {
            let before = views.take(c as int);
            let after = views.take(c + 1);
            assert(after.drop_last() =~= before);
            assert(after.last() == chunks[c as int]@);
            assert(ints(lengths@ + part@) =~= ints(lengths@) + ints(part@));
        }
        lengths.append(&mut part);
        c += 1;
    }
    assert(views.take(chunks.len() as int) =~= views);
    offsets_from_lengths(&lengths)
}

/// Within one chunk every running total of the lengths is a 64-bit offset.
proof fn lemma_single_chunk_fits(chunk: Seq<i64>)
    requires
        chunk_ok(chunk),
    ensures
        totals_fit(lengths_of(ints(chunk))),
{
    let offsets = ints(chunk);
    assert forall|k: int| 0 <= k <= lengths_of(offsets).len() implies i64::MIN
        <= #[trigger] prefix_sum(lengths_of(offsets), k) <= i64::MAX by {
        lemma_prefix_sum_of_lengths(offsets, k);
        assert(offsets[0] <= offsets[k]);
    }
}

/// The first position at which the running total leaves the 64-bit range,
/// where there is one.
pub open spec fn first_overflow(lengths: Seq<int>) -> int {
    choose|at: int| overflows_at(lengths, at)
}

/// `at` is the first position that holds a negative length.
pub open spec fn is_first_negative(lengths: Seq<int>, at: int) -> bool {
    &&& 0 <= at < lengths.len()
    &&& lengths[at] < 0
    &&& forall|i: int| 0 <= i < at ==> lengths[i] >= 0
}

/// The first position that holds a negative length, where there is one.
pub open spec fn first_negative(lengths: Seq<int>) -> int {
    choose|at: int| is_first_negative(lengths, at)
}

/// Some length is negative.
pub open spec fn has_negative(lengths: Seq<int>) -> bool {
    exists|i: int| 0 <= i < lengths.len() && lengths[i] < 0
}

/// What keeps lengths from splitting a target of `target_len` rows into
/// groups, or `None` where they split it. The tests come in this order: the
/// running totals are 64-bit offsets, the grand total is the length of the
/// target, no length is negative.
pub open spec fn lengths_mismatch(lengths: Seq<i64>, target_len: usize) -> Option<Mismatch> {
    let total = prefix_sum(ints(lengths), lengths.len() as int);
    if !totals_fit(ints(lengths)) {
        Some(Mismatch::TotalTooLarge { at: first_overflow(ints(lengths)) as usize })
    } else if total != target_len {
        Some(Mismatch::LastOffset { last: total as i64, target_len })
    } else if has_negative(ints(lengths)) {
        Some(Mismatch::Decreasing { at: first_negative(ints(lengths)) as usize })
    } else {
        None
    }
}

/// The reason for which lengths read from a column are refused, or `None`
/// where they are accepted. A null is looked for first.
pub open spec fn lengths_fault(items: Seq<Option<i64>>, target_len: usize) -> Option<ReshapeError> {
    if has_null_entry(items) {
        Some(ReshapeError::ComputeError(NullsIn::Lengths))
    } else {
        match lengths_mismatch(unwrapped(items), target_len) {
            Some(mismatch) => Some(ReshapeError::ShapeMismatch(mismatch)),
            None => None,
        }
    }
}

/// The running total leaves the 64-bit range at one position at most.
pub proof fn lemma_overflow_unique(lengths: Seq<int>, at: int)
    requires
        overflows_at(lengths, at),
    ensures
        first_overflow(lengths) == at,
        !totals_fit(lengths),
{
    let other = first_overflow(lengths);
    assert(overflows_at(lengths, other));
    if other < at {
        assert(fits(prefix_sum(lengths, other + 1)));
    }
    if at < other {
        assert(fits(prefix_sum(lengths, at + 1)));
    }
    assert(!fits(prefix_sum(lengths, at + 1)));
}

/// Before a negative length stands a first negative length.
proof fn lemma_first_negative_exists(lengths: Seq<int>, i: int) -> (at: int)
    requires
        0 <= i < lengths.len(),
        lengths[i] < 0,
    ensures
        is_first_negative(lengths, at),
        first_negative(lengths) == at,
    decreases i,
{
    if exists|k: int| 0 <= k < i && lengths[k] < 0 {
        let k = choose|k: int| 0 <= k < i && lengths[k] < 0;
        lemma_first_negative_exists(lengths, k)
    } else {
        assert(is_first_negative(lengths, i));
        let other = first_negative(lengths);
        assert(is_first_negative(lengths, other));
        i
    }
}

/// Lengths are refused for the reasons for which their offsets are refused:
/// the grand total is the last offset, and the first negative length is the
/// first descent.
pub proof fn lemma_lengths_as_offsets(lengths: Seq<i64>, target_len: usize)
    requires
        totals_fit(ints(lengths)),
    ensures
        ints(offset_values(ints(lengths))) == offsets_of(ints(lengths)),
        lengths_mismatch(lengths, target_len) == offsets_mismatch(
            offset_values(ints(lengths)),
            target_len,
        ),
{
    let l = ints(lengths);
    let offsets = offset_values(l);
    lemma_offset_values(l);
    assert(offsets[0] == 0);
    assert(fits(prefix_sum(l, l.len() as int)));
    assert(offsets.last() == prefix_sum(l, l.len() as int));
    if has_negative(l) {
        let i = choose|i: int| 0 <= i < l.len() && l[i] < 0;
        let at = lemma_first_negative_exists(l, i);
        assert(is_first_descent(ints(offsets), at)) by {
            assert(prefix_sum(l, at + 1) == prefix_sum(l, at) + l[at]);
            assert forall|k: int| 0 <= k < at implies !descends_at(ints(offsets), k) by {
                assert(prefix_sum(l, k + 1) == prefix_sum(l, k) + l[k]);
            }
        }
        lemma_first_descent_unique(ints(offsets), at);
    } else {
        lemma_offsets_of_non_negative(l);
    }
}

/// Tests lengths read from a column against the target that they are to
/// split, and gives the offsets of the groups where they are accepted.
pub fn check_lengths(items: &Vec<Option<i64>>, target_len: usize) -> (r: Result<
    Vec<i64>,
    ReshapeError,
>)
    ensures
        match lengths_fault(items@, target_len) {
            Some(e) => r == Err::<Vec<i64>, ReshapeError>(e),
            None => r is Ok && r->Ok_0@ == offset_values(ints(unwrapped(items@))) && ints(
                r->Ok_0@,
            ) == offsets_of(ints(unwrapped(items@))) && describes(
                ints(r->Ok_0@),
                target_len as int,
            ),
        },
{
    let lengths = match strip_nulls(items) {
        Some(lengths) => lengths,
        None => {
            return Err(ReshapeError::ComputeError(NullsIn::Lengths));
        },
    };
    let offsets = match offsets_from_lengths(&lengths) {
        Ok(offsets) => offsets,
        Err(mismatch) => {
            proof {
                lemma_overflow_unique(ints(lengths@), mismatch->TotalTooLarge_at as int);
            }
            return Err(ReshapeError::ShapeMismatch(mismatch));
        },
    };
    proof {
        lemma_lengths_as_offsets(lengths@, target_len);
        lemma_offset_values_unique(offsets@, ints(lengths@));
    }
    match find_mismatch(&offsets, target_len) {
        Some(mismatch) => Err(ReshapeError::ShapeMismatch(mismatch)),
        None => Ok(offsets),
    }
}

} // verus!
