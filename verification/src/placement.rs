//! The meaning of the operations, stated over sequences of units: where an
//! insert puts its unit, which unit a delete marks, what compaction keeps,
//! and what document the units show.
//!
//! An insert names a left unit and, for a middle insert, a right unit. The new
//! unit goes after the first unit named `left`, past every following unit that
//! neither is the right unit nor was made by an actor at least as high as the
//! inserting one. A right insert that runs off the end lands last; a middle
//! insert that runs off the end finds no place.

use vstd::prelude::*;

use crate::rga::{ActorId, RgaInsertQuery, RgaUnitId, UnitView};

verus! {

impl RgaInsertQuery {
    /// The unit after which the search for a place starts.
    pub open spec fn left(self) -> RgaUnitId {
        match self {
            RgaInsertQuery::Right(id) => id,
            RgaInsertQuery::Middle(left, _) => left,
        }
    }

    /// The unit before which a middle insert must land.
    pub open spec fn right(self) -> Option<RgaUnitId> {
        match self {
            RgaInsertQuery::Right(_) => None,
            RgaInsertQuery::Middle(_, right) => Some(right),
        }
    }
}

/// A new unit of `actor` is not carried past `e`.
pub open spec fn stops_before<T>(e: UnitView<T>, actor: ActorId, right: Option<RgaUnitId>) -> bool {
    right == Some(e.id) || actor <= e.id.0
}

/// Starting from `s[0]`, the offset of the unit after which a new unit of
/// `actor` goes; `None` when the run reaches the end and a right unit was due.
pub open spec fn run_end<T>(s: Seq<UnitView<T>>, actor: ActorId, right: Option<RgaUnitId>) -> Option<int>
    decreases s.len(),
{
    if s.len() <= 1 {
        if right is None {
            Some(0)
        } else {
            None
        }
    } else if stops_before(s[1], actor, right) {
        Some(0)
    } else {
        match run_end(s.drop_first(), actor, right) {
            Some(k) => Some(k + 1),
            None => None,
        }
    }
}

/// The index of the unit after which a new unit of `actor` goes, searching
/// from the first unit named `left`; `None` when there is no such place.
pub open spec fn insertion_point<T>(
    s: Seq<UnitView<T>>,
    left: RgaUnitId,
    right: Option<RgaUnitId>,
    actor: ActorId,
) -> Option<int>
    decreases s.len(),
{
    if s.len() == 0 {
        None
    } else if s[0].id == left {
        run_end(s, actor, right)
    } else {
        match insertion_point(s.drop_first(), left, right, actor) {
            Some(k) => Some(k + 1),
            None => None,
        }
    }
}

/// `s` with `u` put where the query places a unit of `u`'s actor; `s`
/// itself when the query finds no place.
pub open spec fn place<T>(s: Seq<UnitView<T>>, q: RgaInsertQuery, u: UnitView<T>) -> Seq<UnitView<T>> {
    match insertion_point(s, q.left(), q.right(), u.id.0) {
        Some(j) => s.insert(j + 1, u),
        None => s,
    }
}

pub proof fn lemma_run_end_bounds<T>(s: Seq<UnitView<T>>, actor: ActorId, right: Option<RgaUnitId>)
    requires
        s.len() >= 1,
    ensures
        run_end(s, actor, right) matches Some(k) ==> 0 <= k < s.len(),
    decreases s.len(),
{
    if s.len() > 1 && !stops_before(s[1], actor, right) {
        lemma_run_end_bounds(s.drop_first(), actor, right);
    }
}

pub proof fn lemma_insertion_point_bounds<T>(
    s: Seq<UnitView<T>>,
    left: RgaUnitId,
    right: Option<RgaUnitId>,
    actor: ActorId,
)
    ensures
        insertion_point(s, left, right, actor) matches Some(j) ==> 0 <= j < s.len(),
    decreases s.len(),
{
    if s.len() > 0 {
        if s[0].id == left {
            lemma_run_end_bounds(s, actor, right);
        } else {
            lemma_insertion_point_bounds(s.drop_first(), left, right, actor);
        }
    }
}

/// Inserting behind a first element is inserting into the rest.
pub proof fn lemma_insert_behind_head<T>(s: Seq<T>, k: int, u: T)
    requires
        s.len() >= 1,
        1 <= k <= s.len(),
    ensures
        s.insert(k, u) == seq![s[0]] + s.drop_first().insert(k - 1, u),
{
    assert(s.insert(k, u) =~= seq![s[0]] + s.drop_first().insert(k - 1, u));
}

/// `s` with its first unit named `id` marked deleted; `s` itself when no
/// unit is named `id`.
pub open spec fn mark_deleted<T>(s: Seq<UnitView<T>>, id: RgaUnitId) -> Seq<UnitView<T>> {
    let k = first_index_of(s, id);
    if k < s.len() {
        s.update(k, UnitView { id: s[k].id, is_tombstone: true, contents: s[k].contents })
    } else {
        s
    }
}

pub proof fn lemma_first_index_of_bounds<T>(s: Seq<UnitView<T>>, id: RgaUnitId)
    ensures
        0 <= first_index_of(s, id) <= s.len(),
        first_index_of(s, id) < s.len() ==> s[first_index_of(s, id)].id == id,
        forall|j: int| 0 <= j < first_index_of(s, id) ==> s[j].id != id,
    decreases s.len(),
{
    if s.len() > 0 && s[0].id != id {
        lemma_first_index_of_bounds(s.drop_first(), id);
        assert forall|j: int| 0 <= j < first_index_of(s, id) implies s[j].id != id by {
            if j > 0 {
                assert(s[j] == s.drop_first()[j - 1]);
            }
        }
    }
}

/// The first unit named `id` is the one at `k`.
pub proof fn lemma_first_index_is<T>(s: Seq<UnitView<T>>, id: RgaUnitId, k: int)
    requires
        0 <= k <= s.len(),
        k < s.len() ==> s[k].id == id,
        forall|j: int| 0 <= j < k ==> s[j].id != id,
    ensures
        first_index_of(s, id) == k,
{
    lemma_first_index_of_bounds(s, id);
    let f = first_index_of(s, id);
    if f < k {
        assert(s[f].id != id);
    } else if f > k {
        assert(s[k].id != id);
    }
}

/// The live units of `s`, in order.
pub open spec fn without_tombstones<T>(s: Seq<UnitView<T>>) -> Seq<UnitView<T>>
    decreases s.len(),
{
    if s.len() == 0 {
        s
    } else if s[0].is_tombstone {
        without_tombstones(s.drop_first())
    } else {
        seq![s[0]] + without_tombstones(s.drop_first())
    }
}

/// The contents of the live units of `s`, in order.
pub open spec fn visible<T>(s: Seq<UnitView<T>>) -> Seq<T>
    decreases s.len(),
{
    if s.len() == 0 {
        Seq::empty()
    } else if s[0].is_tombstone {
        visible(s.drop_first())
    } else {
        seq![s[0].contents] + visible(s.drop_first())
    }
}

/// The index of the first unit named `id`; `s.len()` when there is none.
pub open spec fn first_index_of<T>(s: Seq<UnitView<T>>, id: RgaUnitId) -> int
    decreases s.len(),
{
    if s.len() == 0 {
        0
    } else if s[0].id == id {
        0
    } else {
        1 + first_index_of(s.drop_first(), id)
    }
}

proof fn lemma_run_end_lands<T>(s: Seq<UnitView<T>>, actor: ActorId, right: Option<RgaUnitId>)
    requires
        s.len() >= 1,
    ensures
        match run_end(s, actor, right) {
            Some(k) => {
                &&& 0 <= k < s.len()
                &&& forall|m: int| 0 < m <= k ==> !stops_before(#[trigger] s[m], actor, right)
                &&& k + 1 < s.len() ==> stops_before(s[k + 1], actor, right)
                &&& k + 1 == s.len() ==> right is None
            },
            None => {
                &&& right is Some
                &&& forall|m: int| 0 < m < s.len() ==> !stops_before(#[trigger] s[m], actor, right)
            },
        },
    decreases s.len(),
{
    if s.len() > 1 && !stops_before(s[1], actor, right) {
        let t = s.drop_first();
        lemma_run_end_lands(t, actor, right);
        match run_end(t, actor, right) {
            Some(k) => {
                assert forall|m: int| 0 < m <= k + 1 implies !stops_before(#[trigger] s[m], actor, right) by {
                    if m > 1 {
                        assert(s[m] == t[m - 1]);
                    }
                }
                assert(k + 2 < s.len() ==> s[k + 2] == t[k + 1]);
            },
            None => {
                assert forall|m: int| 0 < m < s.len() implies !stops_before(#[trigger] s[m], actor, right) by {
                    if m > 1 {
                        assert(s[m] == t[m - 1]);
                    }
                }
            },
        }
    }
}

/// Where an insert lands. When the query has a place `j`, the first unit
/// named `left` comes at or before `j`, no unit after that one up to `j`
/// stops the new unit, and the unit after `j` does, or `j` is the last unit
/// and the query names no right unit. When there is no place, no unit is
/// named `left`, or a right unit is due and nothing after `left` stops the
/// new unit.
pub proof fn insertion_point_lands<T>(
    s: Seq<UnitView<T>>,
    left: RgaUnitId,
    right: Option<RgaUnitId>,
    actor: ActorId,
)
    ensures
        ({
            let i = first_index_of(s, left);
            match insertion_point(s, left, right, actor) {
                Some(j) => {
                    &&& 0 <= i <= j < s.len()
                    &&& s[i].id == left
                    &&& forall|m: int| i < m <= j ==> !stops_before(#[trigger] s[m], actor, right)
                    &&& j + 1 < s.len() ==> stops_before(s[j + 1], actor, right)
                    &&& j + 1 == s.len() ==> right is None
                },
                None => i == s.len() || {
                    &&& right is Some
                    &&& forall|m: int| i < m < s.len() ==> !stops_before(#[trigger] s[m], actor, right)
                },
            }
        }),
    decreases s.len(),
{
    if s.len() > 0 {
        if s[0].id == left {
            lemma_run_end_lands(s, actor, right);
        } else {
            let t = s.drop_first();
            insertion_point_lands(t, left, right, actor);
            lemma_first_index_of_bounds(t, left);
            let i = first_index_of(t, left);
            match insertion_point(t, left, right, actor) {
                Some(j) => {
                    assert forall|m: int| i + 1 < m <= j + 1 implies !stops_before(
                        #[trigger] s[m],
                        actor,
                        right,
                    ) by {
                        assert(s[m] == t[m - 1]);
                    }
                    assert(j + 2 < s.len() ==> s[j + 2] == t[j + 1]);
                },
                None => {
                    if i < t.len() {
                        assert forall|m: int| i + 1 < m < s.len() implies !stops_before(
                            #[trigger] s[m],
                            actor,
                            right,
                        ) by {
                            assert(s[m] == t[m - 1]);
                        }
                    }
                },
            }
        }
    }
}

} // verus!
