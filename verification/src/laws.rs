//! What holds of the array across operations, apart from convergence of
//! inserts: deletes commute with each other and with inserts, compaction
//! keeps the document, every operation keeps the root, and the clock never
//! goes back.

use vstd::prelude::*;

use crate::placement::{
    first_index_of, insertion_point, lemma_first_index_is, lemma_first_index_of_bounds, lemma_insertion_point_bounds,
    mark_deleted, place, run_end, visible, without_tombstones,
};
use crate::rga::{ActorClock, ActorId, RgaInsertQuery, RgaUnitId, RgaView, UnitView};

verus! {

/// `a` and `b` name their units alike, position by position.
pub open spec fn same_ids<T>(a: Seq<UnitView<T>>, b: Seq<UnitView<T>>) -> bool {
    &&& a.len() == b.len()
    &&& forall|i: int| 0 <= i < a.len() ==> #[trigger] a[i].id == b[i].id
}

proof fn lemma_same_ids_rest<T>(a: Seq<UnitView<T>>, b: Seq<UnitView<T>>)
    requires
        same_ids(a, b),
        a.len() >= 1,
    ensures
        same_ids(a.drop_first(), b.drop_first()),
        a[0].id == b[0].id,
{
    assert forall|i: int| 0 <= i < a.drop_first().len() implies #[trigger] a.drop_first()[i].id
        == b.drop_first()[i].id by {
        assert(a[i + 1].id == b[i + 1].id);
    }
}

proof fn lemma_same_ids_first_index<T>(a: Seq<UnitView<T>>, b: Seq<UnitView<T>>, id: RgaUnitId)
    requires
        same_ids(a, b),
    ensures
        first_index_of(a, id) == first_index_of(b, id),
    decreases a.len(),
{
    if a.len() > 0 {
        lemma_same_ids_rest(a, b);
        lemma_same_ids_first_index(a.drop_first(), b.drop_first(), id);
    }
}

proof fn lemma_same_ids_run_end<T>(
    a: Seq<UnitView<T>>,
    b: Seq<UnitView<T>>,
    actor: ActorId,
    right: Option<RgaUnitId>,
)
    requires
        same_ids(a, b),
    ensures
        run_end(a, actor, right) == run_end(b, actor, right),
    decreases a.len(),
{
    if a.len() > 1 {
        lemma_same_ids_rest(a, b);
        assert(a[1].id == b[1].id);
        lemma_same_ids_run_end(a.drop_first(), b.drop_first(), actor, right);
    }
}

proof fn lemma_same_ids_insertion_point<T>(
    a: Seq<UnitView<T>>,
    b: Seq<UnitView<T>>,
    left: RgaUnitId,
    right: Option<RgaUnitId>,
    actor: ActorId,
)
    requires
        same_ids(a, b),
    ensures
        insertion_point(a, left, right, actor) == insertion_point(b, left, right, actor),
    decreases a.len(),
{
    if a.len() > 0 {
        lemma_same_ids_rest(a, b);
        lemma_same_ids_run_end(a, b, actor, right);
        lemma_same_ids_insertion_point(a.drop_first(), b.drop_first(), left, right, actor);
    }
}

proof fn lemma_mark_deleted_same_ids<T>(s: Seq<UnitView<T>>, id: RgaUnitId)
    ensures
        same_ids(s, mark_deleted(s, id)),
{
    lemma_first_index_of_bounds(s, id);
}

impl<T> RgaView<T> {
    /// The number of document characters that the units up to index `j`
    /// (the root excluded) show.
    pub open spec fn shown_before(self, j: int) -> int {
        visible(self.units.drop_first().take(j)).len() as int
    }
}

/// Deletes commute: deleting `x` then `y` leaves the same array as deleting
/// `y` then `x`.
pub proof fn deletes_commute<T>(v: RgaView<T>, x: RgaUnitId, y: RgaUnitId)
    ensures
        v.after_delete(x).after_delete(y) == v.after_delete(y).after_delete(x),
{
    let s = v.units;
    lemma_mark_deleted_same_ids(s, x);
    lemma_mark_deleted_same_ids(s, y);
    lemma_same_ids_first_index(s, mark_deleted(s, x), y);
    lemma_same_ids_first_index(s, mark_deleted(s, y), x);
    lemma_first_index_of_bounds(s, x);
    lemma_first_index_of_bounds(s, y);
    if x.1 != 0 && y.1 != 0 {
        assert(mark_deleted(mark_deleted(s, x), y) =~= mark_deleted(mark_deleted(s, y), x));
        assert(v.after_delete(x).after_delete(y) =~= v.after_delete(y).after_delete(x));
    }
}

/// Deleting twice is deleting once.
pub proof fn delete_is_idempotent<T>(v: RgaView<T>, x: RgaUnitId)
    ensures
        v.after_delete(x).after_delete(x) == v.after_delete(x),
{
    let s = v.units;
    lemma_mark_deleted_same_ids(s, x);
    lemma_same_ids_first_index(s, mark_deleted(s, x), x);
    lemma_first_index_of_bounds(s, x);
    if x.1 != 0 {
        assert(mark_deleted(mark_deleted(s, x), x) =~= mark_deleted(s, x));
        assert(v.after_delete(x).after_delete(x) =~= v.after_delete(x));
    }
}

/// Inserting a unit behind index `j` moves the first unit of another name by
/// one place when it came after `j`.
proof fn lemma_first_index_after_insert<T>(s: Seq<UnitView<T>>, j: int, u: UnitView<T>, id: RgaUnitId)
    requires
        0 <= j < s.len(),
        u.id != id,
    ensures
        first_index_of(s.insert(j + 1, u), id) == if first_index_of(s, id) <= j {
            first_index_of(s, id)
        } else {
            first_index_of(s, id) + 1
        },
{
    lemma_first_index_of_bounds(s, id);
    let k = first_index_of(s, id);
    let t = s.insert(j + 1, u);
    let k2 = if k <= j {
        k
    } else {
        k + 1
    };
    assert forall|i: int| 0 <= i < k2 implies t[i].id != id by {
        if i <= j {
            assert(t[i] == s[i]);
        } else if i > j + 1 {
            assert(t[i] == s[i - 1]);
        }
    }
    lemma_first_index_is(t, id, k2);
}

/// An insert and a delete commute unless the delete names the new unit.
pub proof fn insert_and_delete_commute<T>(
    v: RgaView<T>,
    q: RgaInsertQuery,
    contents: T,
    actor: Option<ActorId>,
    id: Option<ActorClock>,
    deleted: RgaUnitId,
)
    requires
        deleted != v.new_unit_id(actor, id),
    ensures
        v.after_insert(q, contents, actor, id).after_delete(deleted) == v.after_delete(
            deleted,
        ).after_insert(q, contents, actor, id),
{
    let s = v.units;
    let a = v.inserting_actor(actor);
    let u = UnitView { id: v.new_unit_id(actor, id), is_tombstone: false, contents };
    if deleted.1 != 0 {
        let m = mark_deleted(s, deleted);
        lemma_mark_deleted_same_ids(s, deleted);
        lemma_same_ids_insertion_point(s, m, q.left(), q.right(), a);
        lemma_insertion_point_bounds(s, q.left(), q.right(), a);
        lemma_first_index_of_bounds(s, deleted);
        match insertion_point(s, q.left(), q.right(), a) {
            Some(j) => {
                lemma_first_index_after_insert(s, j, u, deleted);
                assert(mark_deleted(s.insert(j + 1, u), deleted) =~= m.insert(j + 1, u));
                assert(v.after_insert(q, contents, actor, id).after_delete(deleted) =~= v.after_delete(
                    deleted,
                ).after_insert(q, contents, actor, id));
            },
            None => {},
        }
    }
}

proof fn lemma_visible_append<T>(a: Seq<UnitView<T>>, b: Seq<UnitView<T>>)
    ensures
        visible(a + b) == visible(a) + visible(b),
    decreases a.len(),
{
    if a.len() == 0 {
        assert(a + b =~= b);
        assert(visible(a) + visible(b) =~= visible(b));
    } else {
        assert((a + b).drop_first() =~= a.drop_first() + b);
        lemma_visible_append(a.drop_first(), b);
        if !a[0].is_tombstone {
            assert(seq![a[0].contents] + (visible(a.drop_first()) + visible(b)) =~= (seq![
                a[0].contents,
            ] + visible(a.drop_first())) + visible(b));
        }
    }
}

proof fn lemma_visible_split<T>(s: Seq<UnitView<T>>, j: int)
    requires
        0 <= j <= s.len(),
    ensures
        visible(s) == visible(s.take(j)) + visible(s.skip(j)),
{
    assert(s =~= s.take(j) + s.skip(j));
    lemma_visible_append(s.take(j), s.skip(j));
}

/// An insert that finds a place shows its contents in the document, after
/// what the units before it show; one that finds none leaves the document.
pub proof fn insert_shows_contents<T>(
    v: RgaView<T>,
    q: RgaInsertQuery,
    contents: T,
    actor: Option<ActorId>,
    id: Option<ActorClock>,
)
    ensures
        match insertion_point(v.units, q.left(), q.right(), v.inserting_actor(actor)) {
            Some(j) => v.after_insert(q, contents, actor, id).text() == v.text().insert(
                v.shown_before(j),
                contents,
            ),
            None => v.after_insert(q, contents, actor, id).text() == v.text(),
        },
{
    let s = v.units;
    let a = v.inserting_actor(actor);
    lemma_insertion_point_bounds(s, q.left(), q.right(), a);
    if let Some(j) = insertion_point(s, q.left(), q.right(), a) {
        let u = UnitView { id: v.new_unit_id(actor, id), is_tombstone: false, contents };
        let d = s.drop_first();
        assert(s.insert(j + 1, u).drop_first() =~= d.take(j) + (seq![u] + d.skip(j)));
        lemma_visible_append(d.take(j), seq![u] + d.skip(j));
        lemma_visible_append(seq![u], d.skip(j));
        assert(visible(seq![u]) =~= seq![contents]) by {
            assert(seq![u].drop_first() =~= Seq::<UnitView<T>>::empty());
            assert(visible(seq![u].drop_first()) =~= Seq::<T>::empty());
            assert(visible(seq![u]) == seq![u.contents] + visible(seq![u].drop_first()));
        }
        lemma_visible_split(d, j);
        assert(visible(d.take(j)) + (seq![contents] + visible(d.skip(j))) =~= (visible(d.take(j))
            + visible(d.skip(j))).insert(visible(d.take(j)).len() as int, contents));
    }
}

/// A delete hides the contents of the first unit it names, when that unit is
/// live; otherwise it leaves the document.
pub proof fn delete_hides_contents<T>(v: RgaView<T>, x: RgaUnitId)
    requires
        v.root_intact(),
    ensures
        ({
            let k = first_index_of(v.units, x);
            if x.1 != 0 && k < v.units.len() && !v.units[k].is_tombstone {
                &&& 1 <= k
                &&& v.after_delete(x).text() == v.text().remove(v.shown_before(k - 1))
            } else {
                v.after_delete(x).text() == v.text()
            }
        }),
{
    let s = v.units;
    let k = first_index_of(s, x);
    lemma_first_index_of_bounds(s, x);
    if x.1 != 0 && k < s.len() {
        assert(k != 0);
        let d = s.drop_first();
        let e = s[k];
        let m = UnitView { id: e.id, is_tombstone: true, contents: e.contents };
        assert(mark_deleted(s, x).drop_first() =~= d.take(k - 1) + (seq![m] + d.skip(k)));
        assert(d =~= d.take(k - 1) + (seq![e] + d.skip(k)));
        lemma_visible_append(d.take(k - 1), seq![m] + d.skip(k));
        lemma_visible_append(d.take(k - 1), seq![e] + d.skip(k));
        lemma_visible_append(seq![m], d.skip(k));
        lemma_visible_append(seq![e], d.skip(k));
        assert(seq![m].drop_first() =~= Seq::<UnitView<T>>::empty());
        assert(seq![e].drop_first() =~= Seq::<UnitView<T>>::empty());
        if !e.is_tombstone {
            assert(visible(d.take(k - 1)) + (Seq::<T>::empty() + visible(d.skip(k))) =~= (visible(
                d.take(k - 1),
            ) + (seq![e.contents] + visible(d.skip(k)))).remove(
                visible(d.take(k - 1)).len() as int,
            ));
        } else {
            assert(visible(seq![m]) =~= visible(seq![e]));
        }
    }
}

proof fn lemma_compaction_keeps_visible<T>(s: Seq<UnitView<T>>)
    ensures
        visible(without_tombstones(s)) == visible(s),
        forall|i: int|
            0 <= i < without_tombstones(s).len() ==> !(#[trigger] without_tombstones(s)[i]).is_tombstone,
    decreases s.len(),
{
    if s.len() > 0 {
        let t = s.drop_first();
        lemma_compaction_keeps_visible(t);
        if !s[0].is_tombstone {
            let w = seq![s[0]] + without_tombstones(t);
            assert(w.drop_first() =~= without_tombstones(t));
            assert forall|i: int| 0 <= i < w.len() implies !(#[trigger] w[i]).is_tombstone by {
                if i > 0 {
                    assert(w[i] == without_tombstones(t)[i - 1]);
                }
            }
        }
    } else {
        assert(without_tombstones(s) =~= s);
    }
}

/// Compaction keeps the document and leaves no deleted unit after the root;
/// compacting again changes nothing.
pub proof fn compaction_keeps_document<T>(v: RgaView<T>)
    requires
        v.units.len() >= 1,
    ensures
        v.after_compact().text() == v.text(),
        forall|i: int|
            1 <= i < v.after_compact().units.len() ==> !(#[trigger] v.after_compact().units[i]).is_tombstone,
        v.after_compact().after_compact() == v.after_compact(),
{
    let c = v.after_compact();
    let w = without_tombstones(v.units.drop_first());
    lemma_compaction_keeps_visible(v.units.drop_first());
    assert(c.units.drop_first() =~= w);
    assert forall|i: int| 1 <= i < c.units.len() implies !(#[trigger] c.units[i]).is_tombstone by {
        assert(c.units[i] == w[i - 1]);
    }
    lemma_no_tombstones_stay(w);
    assert(c.after_compact().units =~= c.units);
}

proof fn lemma_no_tombstones_stay<T>(s: Seq<UnitView<T>>)
    requires
        forall|i: int| 0 <= i < s.len() ==> !(#[trigger] s[i]).is_tombstone,
    ensures
        without_tombstones(s) == s,
    decreases s.len(),
{
    if s.len() > 0 {
        let t = s.drop_first();
        assert(!s[0].is_tombstone);
        assert forall|i: int| 0 <= i < t.len() implies !(#[trigger] t[i]).is_tombstone by {
            assert(t[i] == s[i + 1]);
        }
        lemma_no_tombstones_stay(t);
        assert(seq![s[0]] + t =~= s);
    } else {
        assert(without_tombstones(s) =~= s);
    }
}

/// Every operation keeps the root first, named by the owner and clock 0,
/// and live.
pub proof fn operations_keep_root<T>(
    v: RgaView<T>,
    q: RgaInsertQuery,
    contents: T,
    actor: Option<ActorId>,
    id: Option<ActorClock>,
    deleted: RgaUnitId,
)
    requires
        v.root_intact(),
    ensures
        v.after_insert(q, contents, actor, id).root_intact(),
        v.after_delete(deleted).root_intact(),
        v.after_compact().root_intact(),
{
    let s = v.units;
    lemma_insertion_point_bounds(s, q.left(), q.right(), v.inserting_actor(actor));
    lemma_first_index_of_bounds(s, deleted);
}

/// The clock never goes back: an insert that takes its clock from the array
/// advances it by one, and nothing else changes it.
pub proof fn clock_never_goes_back<T>(
    v: RgaView<T>,
    q: RgaInsertQuery,
    contents: T,
    actor: Option<ActorId>,
    id: Option<ActorClock>,
    deleted: RgaUnitId,
)
    requires
        v.clock < u64::MAX,
    ensures
        v.after_insert(q, contents, actor, id).clock == if id is None && v.finds_place(q, actor) {
            v.clock + 1
        } else {
            v.clock as int
        },
        v.after_delete(deleted).clock == v.clock,
        v.after_compact().clock == v.clock,
{
}

/// An insert that finds a place names its unit by the inserting actor (the
/// one given, else the owner, whichever actor is given) and by the clock
/// given, else by the array's clock after one step, which is never the clock
/// 0 of a root; it advances the array's clock exactly when it takes its
/// clock from it, and the named unit then stands live in the array with the
/// contents given.
pub proof fn inserts_name_their_units<T>(
    v: RgaView<T>,
    q: RgaInsertQuery,
    contents: T,
    actor: Option<ActorId>,
    id: Option<ActorClock>,
)
    requires
        v.finds_place(q, actor),
        v.clock < u64::MAX,
    ensures
        v.insert_result(q, actor, id) == Some(
            (
                match actor {
                    Some(a) => a,
                    None => v.actor_id,
                },
                match id {
                    Some(c) => c,
                    None => (v.clock + 1) as u64,
                },
            ),
        ),
        id is None ==> v.insert_result(q, actor, id).unwrap().1 == v.clock + 1,
        id is None ==> v.insert_result(q, actor, id).unwrap().1 != 0,
        v.after_insert(q, contents, actor, id).clock == if id is None {
            v.clock + 1
        } else {
            v.clock as int
        },
        v.after_insert(q, contents, actor, id).units.contains(
            UnitView { id: v.insert_result(q, actor, id).unwrap(), is_tombstone: false, contents },
        ),
        v.after_insert(q, contents, actor, id).units.len() == v.units.len() + 1,
        ({
            let j = insertion_point(v.units, q.left(), q.right(), v.inserting_actor(actor)).unwrap();
            let after = v.after_insert(q, contents, actor, id).units;
            &&& after[j + 1] == UnitView {
                id: v.insert_result(q, actor, id).unwrap(),
                is_tombstone: false,
                contents,
            }
            &&& forall|i: int| 0 <= i <= j ==> #[trigger] after[i] == v.units[i]
            &&& forall|i: int| j + 1 < i < after.len() ==> #[trigger] after[i] == v.units[i - 1]
        }),
{
    let a = v.inserting_actor(actor);
    lemma_insertion_point_bounds(v.units, q.left(), q.right(), a);
    let j = insertion_point(v.units, q.left(), q.right(), a).unwrap();
    let u = UnitView { id: v.insert_result(q, actor, id).unwrap(), is_tombstone: false, contents };
    assert(v.after_insert(q, contents, actor, id).units[j + 1] == u);
}

/// A delete of a name with a non-zero clock marks deleted the first unit
/// that bears the name, keeping its name and contents, and changes no other
/// unit; with no unit of that name, or a clock of 0, it changes nothing.
pub proof fn delete_marks_first_named_unit<T>(v: RgaView<T>, x: RgaUnitId)
    ensures
        ({
            let k = first_index_of(v.units, x);
            let after = v.after_delete(x);
            &&& after.clock == v.clock
            &&& after.actor_id == v.actor_id
            &&& after.units.len() == v.units.len()
            &&& 0 <= k <= v.units.len()
            &&& forall|j: int| 0 <= j < k ==> (#[trigger] v.units[j]).id != x
            &&& k < v.units.len() ==> v.units[k].id == x
            &&& forall|i: int|
                0 <= i < v.units.len() && (i != k || x.1 == 0) ==> #[trigger] after.units[i]
                    == v.units[i]
            &&& x.1 != 0 && k < v.units.len() ==> after.units[k] == UnitView {
                id: x,
                is_tombstone: true,
                contents: v.units[k].contents,
            }
        }),
{
    lemma_first_index_of_bounds(v.units, x);
}

} // verus!
