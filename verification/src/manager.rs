//! The reservation manager: validation, the five domain operations against
//! the system of record, and the conflict-exclusion semantics.
//!
//! The system of record is modelled as the sequence of persisted rows. Every
//! operation is specified as a relation between the rows before and after
//! the call, over the spec functions below; the no-overlap invariant is part
//! of [`rows_wf`] and is maintained by every operation.

use crate::error::ReservationError;
use crate::reservation::Reservation;
use crate::reservation_query::ReservationQuery;
use crate::reservation_status::{status_code, valid_status_code, ReservationStatus};
use crate::timestamp::ts_lt;
use crate::validator::Validator;
use crate::window::Window;
use vstd::prelude::*;

verus! {

/// A status code that takes part in conflict exclusion: pending or
/// confirmed. Blocked reservations hold no claim on their resource.
pub open spec fn active_code(code: i32) -> bool {
    code == status_code(ReservationStatus::Pending) || code == status_code(
        ReservationStatus::Confirmed,
    )
}

/// The half-open windows of `a` and `b` intersect.
pub open spec fn overlaps(a: Reservation, b: Reservation) -> bool {
    ts_lt(a.start.unwrap(), b.end.unwrap()) && ts_lt(b.start.unwrap(), a.end.unwrap())
}

/// Two rows that may not coexist: same resource, both active, overlapping
/// windows.
pub open spec fn conflicts(a: Reservation, b: Reservation) -> bool {
    &&& a.resource_id@ == b.resource_id@
    &&& active_code(a.status)
    &&& active_code(b.status)
    &&& overlaps(a, b)
}

/// No two distinct rows conflict: the no-overlap invariant.
pub open spec fn no_conflicts(rows: Seq<Reservation>) -> bool {
    forall|i: int, j: int|
        0 <= i < rows.len() && 0 <= j < rows.len() && i != j ==> !conflicts(
            #[trigger] rows[i],
            #[trigger] rows[j],
        )
}

/// Some row conflicts with the candidate.
pub open spec fn conflicts_with(rows: Seq<Reservation>, cand: Reservation) -> bool {
    exists|i: int| 0 <= i < rows.len() && conflicts(#[trigger] rows[i], cand)
}

/// All row ids are distinct.
pub open spec fn unique_ids(rows: Seq<Reservation>) -> bool {
    forall|i: int, j: int| 0 <= i < j < rows.len() ==> #[trigger] rows[i].id != #[trigger] rows[j].id
}

/// What holds of every persisted row: a non-nil id, a present and ordered
/// window, and one of the three persistable statuses.
pub open spec fn stored_valid(r: Reservation) -> bool {
    &&& r.id != 0
    &&& r.start is Some
    &&& r.end is Some
    &&& ts_lt(r.start.unwrap(), r.end.unwrap())
    &&& valid_status_code(r.status)
    &&& r.status != status_code(ReservationStatus::Unknown)
}

/// Well-formedness of the system of record.
pub open spec fn rows_wf(rows: Seq<Reservation>) -> bool {
    &&& forall|i: int| 0 <= i < rows.len() ==> stored_valid(#[trigger] rows[i])
    &&& unique_ids(rows)
    &&& no_conflicts(rows)
}

/// The status a new booking is persisted with: pending when none was
/// supplied, else the supplied status.
pub open spec fn normalized_status(code: i32) -> i32 {
    if code == status_code(ReservationStatus::Unknown) {
        status_code(ReservationStatus::Pending)
    } else {
        code
    }
}

/// The row that `reserve` persists for request `rsvp` under id `id`.
pub open spec fn stored_reservation(rsvp: Reservation, id: u64) -> Reservation {
    Reservation { id, status: normalized_status(rsvp.status), ..rsvp }
}

/// The requested window is well formed.
pub open spec fn reserve_window_ok(rsvp: Reservation) -> bool {
    ts_lt(rsvp.start.unwrap(), rsvp.end.unwrap())
}

/// The first row carrying `id`, if any.
pub open spec fn find_by_id(rows: Seq<Reservation>, id: u64) -> Option<Reservation>
    decreases rows.len(),
{
    if rows.len() == 0 {
        None
    } else if rows[0].id == id {
        Some(rows[0])
    } else {
        find_by_id(rows.drop_first(), id)
    }
}

/// `rows` with the first row carrying `id` replaced by `row`.
pub open spec fn update_by_id(rows: Seq<Reservation>, id: u64, row: Reservation) -> Seq<
    Reservation,
>
    decreases rows.len(),
{
    if rows.len() == 0 {
        rows
    } else if rows[0].id == id {
        seq![row] + rows.drop_first()
    } else {
        seq![rows[0]] + update_by_id(rows.drop_first(), id, row)
    }
}

/// `rows` with the first row carrying `id` removed.
pub open spec fn remove_by_id(rows: Seq<Reservation>, id: u64) -> Seq<Reservation>
    decreases rows.len(),
{
    if rows.len() == 0 {
        rows
    } else if rows[0].id == id {
        rows.drop_first()
    } else {
        seq![rows[0]] + remove_by_id(rows.drop_first(), id)
    }
}

proof fn lemma_find_by_id_at(rows: Seq<Reservation>, id: u64, i: int)
    requires
        0 <= i < rows.len(),
        rows[i].id == id,
        forall|k: int| 0 <= k < i ==> rows[k].id != id,
    ensures
        find_by_id(rows, id) == Some(rows[i]),
    decreases i,
{
    if i > 0 {
        lemma_find_by_id_at(rows.drop_first(), id, i - 1);
    }
}

proof fn lemma_find_by_id_none(rows: Seq<Reservation>, id: u64)
    requires
        forall|k: int| 0 <= k < rows.len() ==> rows[k].id != id,
    ensures
        find_by_id(rows, id) is None,
    decreases rows.len(),
{
    if rows.len() > 0 {
        lemma_find_by_id_none(rows.drop_first(), id);
    }
}

proof fn lemma_update_by_id_at(rows: Seq<Reservation>, id: u64, row: Reservation, i: int)
    requires
        0 <= i < rows.len(),
        rows[i].id == id,
        forall|k: int| 0 <= k < i ==> rows[k].id != id,
    ensures
        update_by_id(rows, id, row) == rows.update(i, row),
    decreases i,
{
    if i == 0 {
        assert(update_by_id(rows, id, row) =~= rows.update(0, row));
    } else {
        lemma_update_by_id_at(rows.drop_first(), id, row, i - 1);
        assert(update_by_id(rows, id, row) =~= rows.update(i, row));
    }
}

proof fn lemma_remove_by_id_at(rows: Seq<Reservation>, id: u64, i: int)
    requires
        0 <= i < rows.len(),
        rows[i].id == id,
        forall|k: int| 0 <= k < i ==> rows[k].id != id,
    ensures
        remove_by_id(rows, id) == rows.remove(i),
    decreases i,
{
    if i == 0 {
        assert(remove_by_id(rows, id) =~= rows.remove(0));
    } else {
        lemma_remove_by_id_at(rows.drop_first(), id, i - 1);
        assert(remove_by_id(rows, id) =~= rows.remove(i));
    }
}

/// Page used when the filter requests none.
pub const DEFAULT_PAGE: i64 = 1;

/// Page size used when the filter requests none.
pub const DEFAULT_PAGE_SIZE: i64 = 10;

/// Every row has both window bounds present.
pub open spec fn all_bounded(s: Seq<Reservation>) -> bool {
    forall|k: int|
        0 <= k < s.len() ==> (#[trigger] s[k]).start is Some && s[k].end is Some
}

/// The filter's window constraint is ill formed: exactly one bound absent,
/// or both present out of order.
pub open spec fn query_window_invalid(q: ReservationQuery) -> bool {
    if q.start is Some && q.end is Some {
        !ts_lt(q.start.unwrap(), q.end.unwrap())
    } else {
        !(q.start is None && q.end is None)
    }
}

/// The row satisfies every constraint the filter states; an absent field
/// constrains nothing. A fully bounded filter window keeps exactly the rows
/// whose windows lie within it: `[r.start, r.end)` inside
/// `[q.start, q.end)`, bounds included.
pub open spec fn matches_query(q: ReservationQuery, r: Reservation) -> bool {
    &&& q.user_id@.len() > 0 ==> r.user_id@ == q.user_id@
    &&& q.resource_id@.len() > 0 ==> r.resource_id@ == q.resource_id@
    &&& q.status != 0 ==> r.status == q.status
    &&& q.start is Some && q.end is Some ==> !ts_lt(r.start.unwrap(), q.start.unwrap())
        && !ts_lt(q.end.unwrap(), r.end.unwrap())
}

/// The rows matching the filter, in stored order.
pub open spec fn filter_rows(rows: Seq<Reservation>, q: ReservationQuery) -> Seq<Reservation>
    decreases rows.len(),
{
    if rows.len() == 0 {
        Seq::empty()
    } else {
        let prefix = filter_rows(rows.drop_last(), q);
        if matches_query(q, rows.last()) {
            prefix.push(rows.last())
        } else {
            prefix
        }
    }
}

/// `a` sorts strictly before `b` ascending: earlier window start, ties
/// broken by the stable secondary key, the id (creation order).
pub open spec fn row_key_lt(a: Reservation, b: Reservation) -> bool {
    ts_lt(a.start.unwrap(), b.start.unwrap()) || (a.start.unwrap() == b.start.unwrap() && a.id
        < b.id)
}

/// `a` sorts strictly before `b` in the requested direction.
pub open spec fn row_before(desc: bool, a: Reservation, b: Reservation) -> bool {
    if desc {
        row_key_lt(b, a)
    } else {
        row_key_lt(a, b)
    }
}

/// `s` with `r` inserted after every row that sorts strictly before it.
pub open spec fn insert_row(desc: bool, r: Reservation, s: Seq<Reservation>) -> Seq<Reservation>
    decreases s.len(),
{
    if s.len() == 0 {
        seq![r]
    } else if row_before(desc, s[0], r) {
        seq![s[0]] + insert_row(desc, r, s.drop_first())
    } else {
        seq![r] + s
    }
}

/// `s` sorted in the requested direction, by insertion.
pub open spec fn sort_rows(desc: bool, s: Seq<Reservation>) -> Seq<Reservation>
    decreases s.len(),
{
    if s.len() == 0 {
        Seq::empty()
    } else {
        insert_row(desc, s.last(), sort_rows(desc, s.drop_last()))
    }
}

/// No later row sorts strictly before an earlier one.
pub open spec fn rows_sorted(desc: bool, s: Seq<Reservation>) -> bool {
    forall|i: int, j: int| 0 <= i < j < s.len() ==> !row_before(desc, #[trigger] s[j], #[trigger] s[i])
}

/// The page the filter selects (1-indexed, defaulted).
pub open spec fn effective_page_spec(page: i64) -> int {
    if page <= 0 {
        DEFAULT_PAGE as int
    } else {
        page as int
    }
}

/// The page size the filter selects (defaulted).
pub open spec fn effective_page_size_spec(size: i64) -> int {
    if size <= 0 {
        DEFAULT_PAGE_SIZE as int
    } else {
        size as int
    }
}

/// Rows of the 1-indexed `page` of `s`, `size` rows to a page; a page past
/// the end of `s` is empty.
pub open spec fn page_slice(s: Seq<Reservation>, page: int, size: int) -> Seq<Reservation> {
    let skip = (page - 1) * size;
    if skip >= s.len() {
        Seq::empty()
    } else if skip + size <= s.len() {
        s.subrange(skip, skip + size)
    } else {
        s.subrange(skip, s.len() as int)
    }
}

/// Everything `query` returns: the matching rows, ordered by window start
/// in the requested direction with ids breaking ties, cut to the requested
/// page.
pub open spec fn query_result(rows: Seq<Reservation>, q: ReservationQuery) -> Seq<Reservation> {
    page_slice(
        sort_rows(q.desc, filter_rows(rows, q)),
        effective_page_spec(q.page),
        effective_page_size_spec(q.page_size),
    )
}

proof fn lemma_insert_row_at(desc: bool, r: Reservation, s: Seq<Reservation>, j: int)
    requires
        0 <= j <= s.len(),
        forall|k: int| 0 <= k < j ==> row_before(desc, s[k], r),
        j < s.len() ==> !row_before(desc, s[j], r),
    ensures
        insert_row(desc, r, s) == s.insert(j, r),
    decreases j,
{
    if j == 0 {
        assert(insert_row(desc, r, s) =~= s.insert(0, r));
    } else {
        lemma_insert_row_at(desc, r, s.drop_first(), j - 1);
        assert(insert_row(desc, r, s) =~= s.insert(j, r));
    }
}

proof fn lemma_wf_update(rows: Seq<Reservation>, i: int, row: Reservation)
    requires
        rows_wf(rows),
        0 <= i < rows.len(),
        stored_valid(row),
        row.id == rows[i].id,
        row.resource_id@ == rows[i].resource_id@,
        row.start == rows[i].start,
        row.end == rows[i].end,
        active_code(row.status) ==> active_code(rows[i].status),
    ensures
        rows_wf(rows.update(i, row)),
{
    let updated = rows.update(i, row);
    assert forall|a: int, b: int|
        0 <= a < updated.len() && 0 <= b < updated.len() && a != b implies !conflicts(
        #[trigger] updated[a],
        #[trigger] updated[b],
    ) by {
        assert(!conflicts(rows[a], rows[b]));
    }
    assert forall|a: int, b: int| 0 <= a < b < updated.len() implies (#[trigger] updated[a]).id != (
    #[trigger] updated[b]).id by {
        assert(rows[a].id != rows[b].id);
    }
}

proof fn lemma_wf_remove(rows: Seq<Reservation>, i: int)
    requires
        rows_wf(rows),
        0 <= i < rows.len(),
    ensures
        rows_wf(rows.remove(i)),
{
    let removed = rows.remove(i);
    assert forall|k: int| 0 <= k < removed.len() implies stored_valid(#[trigger] removed[k]) by {
        if k < i {
            assert(removed[k] == rows[k]);
        } else {
            assert(removed[k] == rows[k + 1]);
        }
    }
    assert forall|a: int, b: int| 0 <= a < b < removed.len() implies (#[trigger] removed[a]).id != (
    #[trigger] removed[b]).id by {
        let a0 = if a < i {
            a
        } else {
            a + 1
        };
        let b0 = if b < i {
            b
        } else {
            b + 1
        };
        assert(removed[a] == rows[a0] && removed[b] == rows[b0]);
        assert(rows[a0].id != rows[b0].id);
    }
    assert forall|a: int, b: int|
        0 <= a < removed.len() && 0 <= b < removed.len() && a != b implies !conflicts(
        #[trigger] removed[a],
        #[trigger] removed[b],
    ) by {
        let a0 = if a < i {
            a
        } else {
            a + 1
        };
        let b0 = if b < i {
            b
        } else {
            b + 1
        };
        assert(removed[a] == rows[a0] && removed[b] == rows[b0]);
        assert(!conflicts(rows[a0], rows[b0]));
    }
}

/// No-overlap invariant: in a well-formed system of record, any two
/// distinct rows on the same resource that are both pending or confirmed
/// hold disjoint windows. Every operation ensures the invariant that
/// implies well-formedness, so this holds after any sequence of successful
/// calls.
pub proof fn lemma_no_overlap(rows: Seq<Reservation>, i: int, j: int)
    requires
        rows_wf(rows),
        0 <= i < rows.len(),
        0 <= j < rows.len(),
        i != j,
        rows[i].resource_id@ == rows[j].resource_id@,
        active_code(rows[i].status),
        active_code(rows[j].status),
    ensures
        !overlaps(rows[i], rows[j]),
{
    assert(!conflicts(rows[i], rows[j]));
}

/// The status transition guard is not repeatable: once the guarded update
/// has replaced the row under `id` by `updated` (the confirmed row), the
/// row found under `id` is `updated` and no longer pending, so a second
/// `change_status` on the same id reports `NotFound` by its contract.
pub proof fn lemma_confirm_only_once(rows: Seq<Reservation>, id: u64, updated: Reservation)
    requires
        find_by_id(rows, id) is Some,
        updated.id == id,
    ensures
        find_by_id(update_by_id(rows, id, updated), id) == Some(updated),
    decreases rows.len(),
{
    if rows.len() > 0 {
        if rows[0].id == id {
            assert((seq![updated] + rows.drop_first())[0] == updated);
        } else {
            lemma_confirm_only_once(rows.drop_first(), id, updated);
            assert((seq![rows[0]] + update_by_id(rows.drop_first(), id, updated)).drop_first()
                =~= update_by_id(rows.drop_first(), id, updated));
        }
    }
}

/// Round trip: a freshly reserved row is the one found under its new id,
/// so `get` after a successful `reserve` returns exactly the stored row,
/// which equals the request in every field but the assigned id and the
/// normalized status.
pub proof fn lemma_get_after_reserve(rows: Seq<Reservation>, stored: Reservation)
    requires
        forall|k: int| 0 <= k < rows.len() ==> (#[trigger] rows[k]).id != stored.id,
    ensures
        find_by_id(rows.push(stored), stored.id) == Some(stored),
    decreases rows.len(),
{
    if rows.len() == 0 {
        assert(rows.push(stored)[0] == stored);
    } else {
        lemma_get_after_reserve(rows.drop_first(), stored);
        assert(rows.push(stored).drop_first() =~= rows.drop_first().push(stored));
        assert(rows.push(stored)[0] == rows[0]);
    }
}

/// Deletion is final: once the row carrying `id` is removed from a record
/// with unique ids, no row carries `id` any more, so `get(id)` reports
/// `NotFound` by its contract.
pub proof fn lemma_deletion_final(rows: Seq<Reservation>, id: u64)
    requires
        unique_ids(rows),
    ensures
        find_by_id(remove_by_id(rows, id), id) is None,
    decreases rows.len(),
{
    if rows.len() == 0 {
    } else if rows[0].id == id {
        assert forall|k: int| 0 <= k < rows.drop_first().len() implies (#[trigger] rows.drop_first()[k]).id
            != id by {
            assert(rows[0].id != rows[k + 1].id);
        }
        lemma_find_by_id_none(rows.drop_first(), id);
    } else {
        assert(unique_ids(rows.drop_first())) by {
            assert forall|a: int, b: int| 0 <= a < b < rows.drop_first().len() implies (
            #[trigger] rows.drop_first()[a]).id != (#[trigger] rows.drop_first()[b]).id by {
                assert(rows[a + 1].id != rows[b + 1].id);
            }
        }
        lemma_deletion_final(rows.drop_first(), id);
        assert((seq![rows[0]] + remove_by_id(rows.drop_first(), id)).drop_first()
            =~= remove_by_id(rows.drop_first(), id));
    }
}

proof fn lemma_insert_row_elems(desc: bool, r: Reservation, s: Seq<Reservation>)
    ensures
        insert_row(desc, r, s).len() == s.len() + 1,
        forall|k: int|
            0 <= k < insert_row(desc, r, s).len() ==> #[trigger] insert_row(desc, r, s)[k] == r
                || s.contains(insert_row(desc, r, s)[k]),
    decreases s.len(),
{
    let result = insert_row(desc, r, s);
    if s.len() == 0 {
    } else if row_before(desc, s[0], r) {
        let s1 = s.drop_first();
        lemma_insert_row_elems(desc, r, s1);
        let inner = insert_row(desc, r, s1);
        assert forall|k: int| 0 <= k < result.len() implies #[trigger] result[k] == r
            || s.contains(result[k]) by {
            if k == 0 {
                assert(s.contains(s[0]));
            } else {
                assert(result[k] == inner[k - 1]);
                if inner[k - 1] != r {
                    let w = choose|w: int| 0 <= w < s1.len() && s1[w] == inner[k - 1];
                    assert(s[w + 1] == inner[k - 1]);
                    assert(s.contains(s[w + 1]));
                }
            }
        }
    } else {
        assert forall|k: int| 0 <= k < result.len() implies #[trigger] result[k] == r
            || s.contains(result[k]) by {
            if k > 0 {
                assert(result[k] == s[k - 1]);
                assert(s.contains(s[k - 1]));
            }
        }
    }
}

proof fn lemma_insert_row_sorted(desc: bool, r: Reservation, s: Seq<Reservation>)
    requires
        rows_sorted(desc, s),
    ensures
        rows_sorted(desc, insert_row(desc, r, s)),
    decreases s.len(),
{
    let result = insert_row(desc, r, s);
    if s.len() == 0 {
    } else if row_before(desc, s[0], r) {
        let s1 = s.drop_first();
        assert(rows_sorted(desc, s1)) by {
            assert forall|a: int, b: int| 0 <= a < b < s1.len() implies !row_before(
                desc,
                #[trigger] s1[b],
                #[trigger] s1[a],
            ) by {
                assert(!row_before(desc, s[b + 1], s[a + 1]));
            }
        }
        lemma_insert_row_sorted(desc, r, s1);
        lemma_insert_row_elems(desc, r, s1);
        let inner = insert_row(desc, r, s1);
        assert forall|a: int, b: int| 0 <= a < b < result.len() implies !row_before(
            desc,
            #[trigger] result[b],
            #[trigger] result[a],
        ) by {
            if a == 0 {
                assert(result[b] == inner[b - 1]);
                if inner[b - 1] == r {
                    assert(!row_before(desc, r, s[0]));
                } else {
                    let w = choose|w: int| 0 <= w < s1.len() && s1[w] == inner[b - 1];
                    assert(!row_before(desc, s[w + 1], s[0]));
                }
            } else {
                assert(!row_before(desc, inner[b - 1], inner[a - 1]));
            }
        }
    } else {
        assert forall|a: int, b: int| 0 <= a < b < result.len() implies !row_before(
            desc,
            #[trigger] result[b],
            #[trigger] result[a],
        ) by {
            if a == 0 {
                assert(result[b] == s[b - 1]);
                if b > 1 {
                    assert(!row_before(desc, s[b - 1], s[0]));
                }
            } else {
                assert(!row_before(desc, s[b - 1], s[a - 1]));
            }
        }
    }
}

/// Ordering: the sorted sequence a query returns never places a row after
/// one that sorts strictly later, whichever direction the filter requests.
pub proof fn lemma_sort_rows_sorted(desc: bool, s: Seq<Reservation>)
    ensures
        rows_sorted(desc, sort_rows(desc, s)),
    decreases s.len(),
{
    if s.len() > 0 {
        lemma_sort_rows_sorted(desc, s.drop_last());
        lemma_insert_row_sorted(desc, s.last(), sort_rows(desc, s.drop_last()));
    }
}

proof fn lemma_insert_row_multiset(desc: bool, r: Reservation, s: Seq<Reservation>)
    ensures
        insert_row(desc, r, s).to_multiset() == s.to_multiset().insert(r),
    decreases s.len(),
{
    broadcast use vstd::seq_lib::group_to_multiset_ensures;

    if s.len() == 0 {
        assert(seq![r] =~= Seq::<Reservation>::empty().push(r));
        assert(insert_row(desc, r, s).to_multiset() =~= s.to_multiset().insert(r));
    } else if row_before(desc, s[0], r) {
        let s1 = s.drop_first();
        lemma_insert_row_multiset(desc, r, s1);
        vstd::seq_lib::lemma_multiset_commutative(seq![s[0]], insert_row(desc, r, s1));
        vstd::seq_lib::lemma_multiset_commutative(seq![s[0]], s1);
        assert(seq![s[0]] + s1 =~= s);
        assert(insert_row(desc, r, s).to_multiset() =~= s.to_multiset().insert(r));
    } else {
        vstd::seq_lib::lemma_multiset_commutative(seq![r], s);
        assert(seq![r] =~= Seq::<Reservation>::empty().push(r));
        assert(insert_row(desc, r, s).to_multiset() =~= s.to_multiset().insert(r));
    }
}

proof fn lemma_sort_rows_multiset(desc: bool, s: Seq<Reservation>)
    ensures
        sort_rows(desc, s).to_multiset() == s.to_multiset(),
    decreases s.len(),
{
    broadcast use vstd::seq_lib::group_to_multiset_ensures;

    if s.len() > 0 {
        lemma_sort_rows_multiset(desc, s.drop_last());
        lemma_insert_row_multiset(desc, s.last(), sort_rows(desc, s.drop_last()));
        assert(s =~= s.drop_last().push(s.last()));
        assert(sort_rows(desc, s).to_multiset() =~= s.to_multiset());
    }
}

/// Rows matching a filter keep their distinct ids.
pub proof fn lemma_filter_rows_unique(rows: Seq<Reservation>, q: ReservationQuery)
    requires
        unique_ids(rows),
    ensures
        unique_ids(filter_rows(rows, q)),
        forall|k: int|
            0 <= k < filter_rows(rows, q).len() ==> rows.contains(#[trigger] filter_rows(rows, q)[k]),
    decreases rows.len(),
{
    if rows.len() > 0 {
        let head = rows.drop_last();
        assert(unique_ids(head)) by {
            assert forall|a: int, b: int| 0 <= a < b < head.len() implies (#[trigger] head[a]).id
                != (#[trigger] head[b]).id by {
                assert(rows[a].id != rows[b].id);
            }
        }
        lemma_filter_rows_unique(head, q);
        let prefix = filter_rows(head, q);
        assert forall|k: int| 0 <= k < prefix.len() implies rows.contains(#[trigger] prefix[k]) by {
            let w = choose|w: int| 0 <= w < head.len() && head[w] == prefix[k];
            assert(rows[w] == prefix[k]);
        }
        if matches_query(q, rows.last()) {
            let result = prefix.push(rows.last());
            assert(rows.contains(rows.last()));
            assert forall|a: int, b: int| 0 <= a < b < result.len() implies (#[trigger] result[a]).id
                != (#[trigger] result[b]).id by {
                if b == result.len() - 1 {
                    let w = choose|w: int| 0 <= w < head.len() && head[w] == prefix[a];
                    assert(rows[w].id != rows[rows.len() - 1].id);
                }
            }
        }
    }
}

/// Ordering: sorting the rows a filter matched reorders them and nothing
/// else, and — their ids being distinct — the result strictly ascends by
/// window start (ties broken by id), or strictly descends when requested.
pub proof fn lemma_query_ordering(desc: bool, s: Seq<Reservation>)
    requires
        unique_ids(s),
    ensures
        sort_rows(desc, s).to_multiset() == s.to_multiset(),
        rows_sorted(desc, sort_rows(desc, s)),
        forall|i: int, j: int|
            0 <= i < j < sort_rows(desc, s).len() ==> row_before(
                desc,
                #[trigger] sort_rows(desc, s)[i],
                #[trigger] sort_rows(desc, s)[j],
            ),
{
    broadcast use vstd::seq_lib::group_to_multiset_ensures;

    lemma_sort_rows_sorted(desc, s);
    lemma_sort_rows_multiset(desc, s);
    let t = sort_rows(desc, s);
    assert(s.no_duplicates()) by {
        assert forall|a: int, b: int|
            0 <= a < s.len() && 0 <= b < s.len() && a != b implies s[a] != s[b] by {
            if a < b {
                assert(s[a].id != s[b].id);
            } else {
                assert(s[b].id != s[a].id);
            }
        }
    }
    s.lemma_multiset_has_no_duplicates();
    t.lemma_multiset_has_no_duplicates_conv();
    assert forall|i: int, j: int| 0 <= i < j < t.len() implies row_before(
        desc,
        #[trigger] t[i],
        #[trigger] t[j],
    ) by {
        assert(t.contains(t[i]) && t.contains(t[j]));
        assert(t.to_multiset().count(t[i]) > 0 && t.to_multiset().count(t[j]) > 0);
        assert(s.to_multiset().count(t[i]) > 0 && s.to_multiset().count(t[j]) > 0);
        assert(s.contains(t[i]) && s.contains(t[j]));
        let p = choose|p: int| 0 <= p < s.len() && s[p] == t[i];
        let q = choose|q: int| 0 <= q < s.len() && s[q] == t[j];
        assert(t[i] != t[j]);
        assert(p != q);
        assert(if p < q {
            s[p].id != s[q].id
        } else {
            s[q].id != s[p].id
        });
        assert(!row_before(desc, t[j], t[i]));
    }
}

fn matches_query_exec(q: &ReservationQuery, row: &Reservation) -> (b: bool)
    requires
        row.start is Some,
        row.end is Some,
    ensures
        b == matches_query(*q, *row),
{
    if !q.user_id.as_str().is_empty() && !(row.user_id == q.user_id) {
        return false;
    }
    if !q.resource_id.as_str().is_empty() && !(row.resource_id == q.resource_id) {
        return false;
    }
    if q.status != 0 && row.status != q.status {
        return false;
    }
    match (q.start, q.end) {
        (Some(ws), Some(we)) => {
            let rs = row.start.unwrap();
            let re = row.end.unwrap();
            if rs.lt(&ws) || we.lt(&re) {
                return false;
            }
        },
        _ => {},
    }
    true
}

fn row_before_exec(a: &Reservation, b: &Reservation, desc: bool) -> (r: bool)
    requires
        a.start is Some,
        b.start is Some,
    ensures
        r == row_before(desc, *a, *b),
{
    let (x, y) = if desc {
        (b, a)
    } else {
        (a, b)
    };
    let xs = x.start.unwrap();
    let ys = y.start.unwrap();
    xs.lt(&ys) || (xs == ys && x.id < y.id)
}

fn insert_row_exec(out: &mut Vec<Reservation>, row: Reservation, desc: bool)
    requires
        row.start is Some,
        row.end is Some,
        all_bounded(old(out)@),
    ensures
        final(out)@ == insert_row(desc, row, old(out)@),
        all_bounded(final(out)@),
{
    let n = out.len();
    let mut j: usize = 0;
    while j < n && row_before_exec(&out[j], &row, desc)
        invariant
            *out == *old(out),
            n == out@.len(),
            j <= n,
            row.start is Some,
            all_bounded(out@),
            forall|k: int| 0 <= k < j ==> row_before(desc, #[trigger] out@[k], row),
        decreases n - j,
    {
        j += 1;
    }
    proof {
        lemma_insert_row_at(desc, row, out@, j as int);
    }
    out.insert(j, row);
    proof {
        assert forall|k: int| 0 <= k < out@.len() implies (#[trigger] out@[k]).start is Some
            && out@[k].end is Some by {
            if k < j {
                assert(out@[k] == old(out)@[k]);
            } else if k == j {
                assert(out@[k] == row);
            } else {
                assert(out@[k] == old(out)@[k - 1]);
            }
        }
    }
}

/// The reservation manager; it owns the validation and translation logic
/// and, here, the system of record itself.
pub struct ReservationManager {
    store: Vec<Reservation>,
    next_id: u64,
}

impl ReservationManager {
    /// An empty system of record; ids are assigned from 1 upwards.
    pub fn new() -> (m: ReservationManager)
        ensures
            m.inv(),
            m.rows() == Seq::<Reservation>::empty(),
            m.capacity() == u64::MAX - 1,
    {
        ReservationManager { store: Vec::new(), next_id: 1 }
    }
}

/// The five domain operations (and retrieval), each independently atomic
/// with respect to the system of record.
pub trait Rsvp: Sized {
    /// The persisted rows, in creation order.
    spec fn rows(&self) -> Seq<Reservation>;

    /// The internal invariant each operation preserves.
    spec fn inv(&self) -> bool;

    /// How many more ids the system of record can assign. The only storage
    /// failure this model can report occurs when none is left; each
    /// successful `reserve` uses exactly one, and no other operation uses
    /// any, so chains of operations keep success provable.
    spec fn capacity(&self) -> nat;

    /// The invariant keeps the system of record well formed; in particular
    /// no two active rows on one resource ever hold overlapping windows.
    proof fn lemma_inv_rows_wf(&self)
        requires
            self.inv(),
        ensures
            rows_wf(self.rows()),
    ;

    /// Book a resource for a time window.
    ///
    /// The window is validated first; a pre-populated id is ignored and
    /// overwritten. The insert and the conflict check are one atomic step:
    /// either the candidate row is appended, or `ConflictError` reports an
    /// overlapping active hold and nothing changes.
    fn reserve(&mut self, rsvp: Reservation) -> (r: Result<Reservation, ReservationError>)
        requires
            old(self).inv(),
            valid_status_code(rsvp.status),
            rsvp.start is Some,
            rsvp.end is Some,
        ensures
            final(self).inv(),
            !reserve_window_ok(rsvp) ==> r == Err::<Reservation, ReservationError>(
                ReservationError::InvalidTimespan,
            ) && final(self).rows() == old(self).rows(),
            reserve_window_ok(rsvp) && conflicts_with(
                old(self).rows(),
                stored_reservation(rsvp, 0),
            ) ==> r == Err::<Reservation, ReservationError>(ReservationError::ConflictError)
                && final(self).rows() == old(self).rows(),
            reserve_window_ok(rsvp) && !conflicts_with(
                old(self).rows(),
                stored_reservation(rsvp, 0),
            ) && old(self).capacity() == 0 ==> r == Err::<Reservation, ReservationError>(
                ReservationError::StorageError,
            ) && final(self).rows() == old(self).rows(),
            reserve_window_ok(rsvp) && !conflicts_with(
                old(self).rows(),
                stored_reservation(rsvp, 0),
            ) && old(self).capacity() > 0 ==> r is Ok,
            r matches Ok(stored) ==> stored == stored_reservation(rsvp, stored.id)
                && stored.id != 0 && (forall|k: int|
                0 <= k < old(self).rows().len() ==> (#[trigger] old(self).rows()[k]).id
                    != stored.id) && final(self).rows() == old(self).rows().push(stored),
            r is Ok ==> final(self).capacity() + 1 == old(self).capacity(),
            r is Err ==> final(self).capacity() == old(self).capacity(),
    ;

    /// Confirm a pending reservation.
    ///
    /// A guarded, atomic update: the row must carry `id` and currently be
    /// pending. If no row matches both, the transition did not happen and
    /// `NotFound` is reported; the caller never receives a row for a
    /// transition that was not performed.
    fn change_status(&mut self, id: u64) -> (r: Result<Reservation, ReservationError>)
        requires
            old(self).inv(),
        ensures
            final(self).inv(),
            final(self).capacity() == old(self).capacity(),
            id == 0 ==> r == Err::<Reservation, ReservationError>(
                ReservationError::InvalidReservationId,
            ) && final(self).rows() == old(self).rows(),
            id != 0 ==> match find_by_id(old(self).rows(), id) {
                Some(row) => {
                    if row.status == status_code(ReservationStatus::Pending) {
                        let updated = Reservation {
                            status: status_code(ReservationStatus::Confirmed),
                            ..row
                        };
                        r == Ok::<Reservation, ReservationError>(updated) && final(self).rows()
                            == update_by_id(old(self).rows(), id, updated)
                    } else {
                        r == Err::<Reservation, ReservationError>(ReservationError::NotFound)
                            && final(self).rows() == old(self).rows()
                    }
                },
                None => r == Err::<Reservation, ReservationError>(ReservationError::NotFound)
                    && final(self).rows() == old(self).rows(),
            },
    ;

    /// Replace the note of a reservation; no other field is touched.
    fn update_note(&mut self, id: u64, note: String) -> (r: Result<Reservation, ReservationError>)
        requires
            old(self).inv(),
        ensures
            final(self).inv(),
            final(self).capacity() == old(self).capacity(),
            id == 0 ==> r == Err::<Reservation, ReservationError>(
                ReservationError::InvalidReservationId,
            ) && final(self).rows() == old(self).rows(),
            id != 0 ==> match find_by_id(old(self).rows(), id) {
                Some(row) => {
                    let updated = Reservation { note: note, ..row };
                    r == Ok::<Reservation, ReservationError>(updated) && final(self).rows()
                        == update_by_id(old(self).rows(), id, updated)
                },
                None => r == Err::<Reservation, ReservationError>(ReservationError::NotFound)
                    && final(self).rows() == old(self).rows(),
            },
    ;

    /// Retrieve a reservation by id.
    fn get(&self, id: u64) -> (r: Result<Reservation, ReservationError>)
        ensures
            id == 0 ==> r == Err::<Reservation, ReservationError>(
                ReservationError::InvalidReservationId,
            ),
            id != 0 ==> r == match find_by_id(self.rows(), id) {
                Some(row) => Ok::<Reservation, ReservationError>(row),
                None => Err::<Reservation, ReservationError>(ReservationError::NotFound),
            },
    ;

    /// Retrieve every reservation matching a filter.
    ///
    /// The filter window must be fully bounded and ordered, or fully
    /// absent; a bounded window keeps exactly the rows whose windows lie
    /// within it. Results are ordered by window start, ascending unless the
    /// filter says descending, with the id (creation order) as the stable
    /// tie-break, and cut to the filter's page; a page past the end of the
    /// result set is an empty sequence, not an error.
    fn query(&self, query: ReservationQuery) -> (r: Result<Vec<Reservation>, ReservationError>)
        requires
            self.inv(),
            valid_status_code(query.status),
        ensures
            query_window_invalid(query) ==> r == Err::<Vec<Reservation>, ReservationError>(
                ReservationError::InvalidTimespan,
            ),
            !query_window_invalid(query) ==> (r matches Ok(v) && v@ == query_result(
                self.rows(),
                query,
            )),
    ;

    /// Delete a reservation and return the removed row, so callers can
    /// observe what was removed.
    fn delete(&mut self, id: u64) -> (r: Result<Reservation, ReservationError>)
        requires
            old(self).inv(),
        ensures
            final(self).inv(),
            final(self).capacity() == old(self).capacity(),
            id == 0 ==> r == Err::<Reservation, ReservationError>(
                ReservationError::InvalidReservationId,
            ) && final(self).rows() == old(self).rows(),
            id != 0 ==> match find_by_id(old(self).rows(), id) {
                Some(row) => r == Ok::<Reservation, ReservationError>(row) && final(self).rows()
                    == remove_by_id(old(self).rows(), id),
                None => r == Err::<Reservation, ReservationError>(ReservationError::NotFound)
                    && final(self).rows() == old(self).rows(),
            },
    ;
}

impl Rsvp for ReservationManager {
    closed spec fn rows(&self) -> Seq<Reservation> {
        self.store@
    }

    closed spec fn inv(&self) -> bool {
        &&& rows_wf(self.store@)
        &&& self.next_id >= 1
        &&& forall|i: int| 0 <= i < self.store@.len() ==> (#[trigger] self.store@[i]).id
            < self.next_id
    }

    closed spec fn capacity(&self) -> nat {
        (u64::MAX - self.next_id) as nat
    }

    proof fn lemma_inv_rows_wf(&self) {
    }

    fn reserve(&mut self, rsvp: Reservation) -> (r: Result<Reservation, ReservationError>) {
        let window = Window::from_reservation(&rsvp);
        if let Err(e) = window.validate() {
            return Err(e);
        }
        let ghost cand = stored_reservation(rsvp, 0);
        let n = self.store.len();
        let mut i: usize = 0;
        while i < n
            invariant
                *self == *old(self),
                old(self).inv(),
                n == self.store@.len(),
                i <= n,
                rsvp.start is Some,
                rsvp.end is Some,
                reserve_window_ok(rsvp),
                cand == stored_reservation(rsvp, 0),
                forall|k: int| 0 <= k < i ==> !conflicts(#[trigger] self.store@[k], cand),
            decreases n - i,
        {
            let row = &self.store[i];
            let candidate_active = rsvp.status == 0 || rsvp.status == 1 || rsvp.status == 2;
            if candidate_active && (row.status == 1 || row.status == 2)
                && row.resource_id == rsvp.resource_id {
                let row_start = row.start.unwrap();
                let row_end = row.end.unwrap();
                let cand_start = rsvp.start.unwrap();
                let cand_end = rsvp.end.unwrap();
                if cand_start.lt(&row_end) && row_start.lt(&cand_end) {
                    proof {
                        assert(conflicts(self.store@[i as int], cand));
                    }
                    return Err(ReservationError::ConflictError);
                }
            }
            i += 1;
        }
        if self.next_id == u64::MAX {
            return Err(ReservationError::StorageError);
        }
        let id = self.next_id;
        self.next_id = self.next_id + 1;
        let status = if rsvp.status == 0 {
            1
        } else {
            rsvp.status
        };
        let stored = Reservation { id, status, ..rsvp };
        let result = stored.clone();
        proof {
            assert(stored == stored_reservation(rsvp, id));
            assert forall|k: int| 0 <= k < self.store@.len() implies !conflicts(
                #[trigger] self.store@[k],
                stored,
            ) && !conflicts(stored, self.store@[k]) by {
                assert(!conflicts(self.store@[k], cand));
            }
            assert(rows_wf(self.store@.push(stored))) by {
                let pushed = self.store@.push(stored);
                assert(forall|k: int|
                    0 <= k < pushed.len() ==> stored_valid(#[trigger] pushed[k]));
                assert(unique_ids(pushed));
                assert(no_conflicts(pushed));
            }
        }
        self.store.push(stored);
        Ok(result)
    }

    fn change_status(&mut self, id: u64) -> (r: Result<Reservation, ReservationError>) {
        if let Err(e) = id.validate() {
            return Err(e);
        }
        let n = self.store.len();
        let mut i: usize = 0;
        while i < n
            invariant
                *self == *old(self),
                old(self).inv(),
                id != 0,
                n == self.store@.len(),
                i <= n,
                forall|k: int| 0 <= k < i ==> (#[trigger] self.store@[k]).id != id,
            decreases n - i,
        {
            if self.store[i].id == id {
                proof {
                    lemma_find_by_id_at(self.store@, id, i as int);
                }
                if self.store[i].status != 1 {
                    return Err(ReservationError::NotFound);
                }
                let ghost rows0 = self.store@;
                let mut row = self.store.remove(i);
                row.status = 2;
                let result = row.clone();
                proof {
                    lemma_update_by_id_at(rows0, id, row, i as int);
                    assert(rows0.remove(i as int).insert(i as int, row) =~= rows0.update(
                        i as int,
                        row,
                    ));
                    lemma_wf_update(rows0, i as int, row);
                }
                self.store.insert(i, row);
                return Ok(result);
            }
            i += 1;
        }
        proof {
            lemma_find_by_id_none(self.store@, id);
        }
        Err(ReservationError::NotFound)
    }

    fn update_note(&mut self, id: u64, note: String) -> (r: Result<Reservation, ReservationError>) {
        if let Err(e) = id.validate() {
            return Err(e);
        }
        let n = self.store.len();
        let mut i: usize = 0;
        while i < n
            invariant
                *self == *old(self),
                old(self).inv(),
                id != 0,
                n == self.store@.len(),
                i <= n,
                forall|k: int| 0 <= k < i ==> (#[trigger] self.store@[k]).id != id,
            decreases n - i,
        {
            if self.store[i].id == id {
                proof {
                    lemma_find_by_id_at(self.store@, id, i as int);
                }
                let ghost rows0 = self.store@;
                let mut row = self.store.remove(i);
                row.note = note;
                let result = row.clone();
                proof {
                    lemma_update_by_id_at(rows0, id, row, i as int);
                    assert(rows0.remove(i as int).insert(i as int, row) =~= rows0.update(
                        i as int,
                        row,
                    ));
                    lemma_wf_update(rows0, i as int, row);
                }
                self.store.insert(i, row);
                return Ok(result);
            }
            i += 1;
        }
        proof {
            lemma_find_by_id_none(self.store@, id);
        }
        Err(ReservationError::NotFound)
    }

    fn get(&self, id: u64) -> (r: Result<Reservation, ReservationError>) {
        if let Err(e) = id.validate() {
            return Err(e);
        }
        let n = self.store.len();
        let mut i: usize = 0;
        while i < n
            invariant
                id != 0,
                n == self.store@.len(),
                i <= n,
                forall|k: int| 0 <= k < i ==> (#[trigger] self.store@[k]).id != id,
            decreases n - i,
        {
            if self.store[i].id == id {
                proof {
                    lemma_find_by_id_at(self.store@, id, i as int);
                }
                return Ok(self.store[i].clone());
            }
            i += 1;
        }
        proof {
            lemma_find_by_id_none(self.store@, id);
        }
        Err(ReservationError::NotFound)
    }

    fn query(&self, query: ReservationQuery) -> (r: Result<Vec<Reservation>, ReservationError>) {
        match (query.start, query.end) {
            (Some(ws), Some(we)) => {
                if !ws.lt(&we) {
                    return Err(ReservationError::InvalidTimespan);
                }
            },
            (None, None) => {},
            _ => {
                return Err(ReservationError::InvalidTimespan);
            },
        }
        // keep the rows the filter matches, in stored order
        let n = self.store.len();
        let mut matched: Vec<Reservation> = Vec::new();
        let mut i: usize = 0;
        while i < n
            invariant
                self.inv(),
                n == self.store@.len(),
                i <= n,
                matched@ == filter_rows(self.store@.subrange(0, i as int), query),
                all_bounded(matched@),
            decreases n - i,
        {
            let ghost pre = self.store@.subrange(0, i as int);
            proof {
                assert(self.store@.subrange(0, (i + 1) as int).drop_last() =~= pre);
                assert(stored_valid(self.store@[i as int]));
            }
            let row = &self.store[i];
            if matches_query_exec(&query, row) {
                matched.push(row.clone());
            }
            i += 1;
        }
        proof {
            assert(self.store@.subrange(0, n as int) =~= self.store@);
        }
        // order by window start in the requested direction, ids breaking ties
        let m = matched.len();
        let mut sorted: Vec<Reservation> = Vec::new();
        let mut j: usize = 0;
        while j < m
            invariant
                m == matched@.len(),
                j <= m,
                all_bounded(matched@),
                sorted@ == sort_rows(query.desc, matched@.subrange(0, j as int)),
                all_bounded(sorted@),
            decreases m - j,
        {
            proof {
                assert(matched@.subrange(0, (j + 1) as int).drop_last() =~= matched@.subrange(
                    0,
                    j as int,
                ));
            }
            let row = matched[j].clone();
            insert_row_exec(&mut sorted, row, query.desc);
            j += 1;
        }
        proof {
            assert(matched@.subrange(0, m as int) =~= matched@);
        }
        // cut to the requested page
        let page = if query.page > 0 {
            query.page
        } else {
            DEFAULT_PAGE
        };
        let page_size = if query.page_size > 0 {
            query.page_size
        } else {
            DEFAULT_PAGE_SIZE
        };
        let pm1: u128 = (page - 1) as u128;
        let ps: u128 = page_size as u128;
        proof {
            assert(pm1 * ps < 0x40000000000000000000000000000000) by (nonlinear_arith)
                requires
                    pm1 < 0x8000000000000000,
                    ps < 0x8000000000000000,
            ;
        }
        let skip_w: u128 = pm1 * ps;
        let len = sorted.len();
        if skip_w >= len as u128 {
            return Ok(Vec::new());
        }
        let skip: usize = skip_w as usize;
        let end_w: u128 = skip_w + ps;
        let end: usize = if end_w >= len as u128 {
            len
        } else {
            end_w as usize
        };
        let mut out: Vec<Reservation> = Vec::new();
        let mut k: usize = skip;
        while k < end
            invariant
                skip <= k <= end,
                end <= sorted@.len(),
                out@ == sorted@.subrange(skip as int, k as int),
            decreases end - k,
        {
            proof {
                assert(sorted@.subrange(skip as int, (k + 1) as int) =~= sorted@.subrange(
                    skip as int,
                    k as int,
                ).push(sorted@[k as int]));
            }
            let row = sorted[k].clone();
            out.push(row);
            k += 1;
        }
        proof {
            let full = sort_rows(query.desc, filter_rows(self.store@, query));
            let spage = effective_page_spec(query.page);
            let ssize = effective_page_size_spec(query.page_size);
            let sskip = (spage - 1) * ssize;
            assert(sskip == skip_w as int);
            if sskip + ssize <= full.len() {
                assert(end == sskip + ssize);
            }
            assert(out@ =~= page_slice(full, spage, ssize));
        }
        Ok(out)
    }

    fn delete(&mut self, id: u64) -> (r: Result<Reservation, ReservationError>) {
        if let Err(e) = id.validate() {
            return Err(e);
        }
        let n = self.store.len();
        let mut i: usize = 0;
        while i < n
            invariant
                *self == *old(self),
                old(self).inv(),
                id != 0,
                n == self.store@.len(),
                i <= n,
                forall|k: int| 0 <= k < i ==> (#[trigger] self.store@[k]).id != id,
            decreases n - i,
        {
            if self.store[i].id == id {
                proof {
                    lemma_find_by_id_at(self.store@, id, i as int);
                    lemma_remove_by_id_at(self.store@, id, i as int);
                    lemma_wf_remove(self.store@, i as int);
                }
                let row = self.store.remove(i);
                return Ok(row);
            }
            i += 1;
        }
        proof {
            lemma_find_by_id_none(self.store@, id);
        }
        Err(ReservationError::NotFound)
    }
}

} // verus!
