//! Walks along a chain of units: finding the place for a new unit, and
//! relinking units in place.

use vstd::prelude::*;

use crate::placement::{
    insertion_point, lemma_first_index_is, lemma_insertion_point_bounds,
    lemma_run_end_bounds, mark_deleted, run_end, stops_before, without_tombstones,
};
use crate::rga::{ActorId, RgaUnit, RgaUnitId, UnitView};

verus! {

fn same_id(a: RgaUnitId, b: RgaUnitId) -> (r: bool)
    ensures
        r == (a == b),
{
    a.0 == b.0 && a.1 == b.1
}

fn unit_stops<T>(e: &RgaUnit<T>, actor: ActorId, right: Option<RgaUnitId>) -> (r: bool)
    ensures
        r == stops_before(e.unit_view(), actor, right),
{
    let at_right = match right {
        Some(r) => same_id(r, e.id),
        None => false,
    };
    at_right || actor <= e.id.0
}

/// Whether the chain from `head` has a place for a unit of `actor`.
pub(crate) fn has_place<T>(
    head: &RgaUnit<T>,
    left: RgaUnitId,
    right: Option<RgaUnitId>,
    actor: ActorId,
) -> (r: bool)
    ensures
        r == (insertion_point(head.chain(), left, right, actor) is Some),
{
    let ghost goal = insertion_point(head.chain(), left, right, actor) is Some;
    let mut cur: &RgaUnit<T> = head;
    // Find the first unit named `left`.
    loop
        invariant_except_break
            (insertion_point(cur.chain(), left, right, actor) is Some) == goal,
            goal == (insertion_point(head.chain(), left, right, actor) is Some),
        ensures
            (run_end(cur.chain(), actor, right) is Some) == goal,
            goal == (insertion_point(head.chain(), left, right, actor) is Some),
        decreases cur.chain().len(),
    {
        proof {
            cur.lemma_chain_shape();
        }
        if same_id(cur.id, left) {
            break ;
        }
        match &cur.next {
            None => {
                proof {
                    assert(insertion_point(cur.chain().drop_first(), left, right, actor) is None);
                }
                return false;
            },
            Some(next) => {
                proof {
                    next.lemma_chain_shape();
                }
                cur = next;
            },
        }
    }
    // Walk the run that follows it.
    loop
        invariant
            (run_end(cur.chain(), actor, right) is Some) == goal,
            goal == (insertion_point(head.chain(), left, right, actor) is Some),
        decreases cur.chain().len(),
    {
        proof {
            cur.lemma_chain_shape();
        }
        match &cur.next {
            None => {
                return right.is_none();
            },
            Some(next) => {
                proof {
                    next.lemma_chain_shape();
                    assert(cur.chain()[1] == next.unit_view());
                }
                if unit_stops(next, actor, right) {
                    return true;
                }
                cur = next;
            },
        }
    }
}

/// Links `unit` into the run that starts at `head`, where a unit of `actor`
/// stops.
fn splice_in_run<T>(head: &mut RgaUnit<T>, actor: ActorId, right: Option<RgaUnitId>, unit: RgaUnit<T>)
    requires
        run_end(old(head).chain(), actor, right) is Some,
        unit.next is None,
    ensures
        final(head).chain() == old(head).chain().insert(
            run_end(old(head).chain(), actor, right).unwrap() + 1,
            unit.unit_view(),
        ),
{
    let ghost s = head.chain();
    let ghost j = run_end(s, actor, right).unwrap();
    let ghost u = unit.unit_view();
    proof {
        head.lemma_chain_shape();
        lemma_run_end_bounds(s, actor, right);
        assert(s.skip(0) =~= s);
    }
    let mut cur: &mut RgaUnit<T> = &mut *head;
    let ghost mut k: int = 0;
    loop
        invariant_except_break
            0 <= k <= j < s.len(),
            cur.chain() == s.skip(k),
            run_end(s.skip(k), actor, right) == Some(j - k),
            after_borrow(*head).chain() == s.take(k) + final(cur).chain(),
            unit.unit_view() == u,
            unit.next is None,
        ensures
            after_borrow(*head).chain() == s.insert(j + 1, u),
        decreases s.len() - k,
    {
        proof {
            cur.lemma_chain_shape();
            assert(s.skip(k).drop_first() =~= s.skip(k + 1));
            if cur.next is Some {
                cur.next.unwrap().lemma_chain_shape();
                assert(cur.chain()[1] == cur.next.unwrap().unit_view());
                lemma_run_end_bounds(s.skip(k + 1), actor, right);
            }
        }
        let stop = match &cur.next {
            None => true,
            Some(next) => unit_stops(next, actor, right),
        };
        if stop {
            let mut unit = unit;
            unit.next = cur.next.take();
            proof {
                unit.lemma_chain_shape();
            }
            cur.next = Some(Box::new(unit));
            proof {
                cur.lemma_chain_shape();
                assert(s.take(k) + cur.chain() =~= s.insert(j + 1, u));
            }
            break ;
        }
        match &mut cur.next {
            None => {
                proof {
                    assert(false);
                }
                break ;
            },
            Some(next) => {
                cur = &mut **next;
                proof {
                    k = k + 1;
                }
            },
        }
    }
}

/// Links `unit` into the chain from `head` where the query places a unit of
/// `actor`.
pub(crate) fn splice_at_place<T>(
    head: &mut RgaUnit<T>,
    left: RgaUnitId,
    right: Option<RgaUnitId>,
    actor: ActorId,
    unit: RgaUnit<T>,
)
    requires
        insertion_point(old(head).chain(), left, right, actor) is Some,
        unit.next is None,
    ensures
        final(head).chain() == old(head).chain().insert(
            insertion_point(old(head).chain(), left, right, actor).unwrap() + 1,
            unit.unit_view(),
        ),
{
    let ghost s = head.chain();
    let ghost j = insertion_point(s, left, right, actor).unwrap();
    let ghost u = unit.unit_view();
    proof {
        lemma_insertion_point_bounds(s, left, right, actor);
        assert(s.skip(0) =~= s);
    }
    let mut cur: &mut RgaUnit<T> = &mut *head;
    let ghost mut k: int = 0;
    // Walk to the first unit named `left`; the new unit goes into the run
    // that starts there.
    loop
        invariant_except_break
            0 <= k <= j < s.len(),
            cur.chain() == s.skip(k),
            insertion_point(s.skip(k), left, right, actor) == Some(j - k),
            after_borrow(*head).chain() == s.take(k) + final(cur).chain(),
            unit.unit_view() == u,
            unit.next is None,
        ensures
            after_borrow(*head).chain() == s.insert(j + 1, u),
        decreases s.len() - k,
    {
        proof {
            cur.lemma_chain_shape();
            assert(s.skip(k).drop_first() =~= s.skip(k + 1));
            lemma_insertion_point_bounds(s.skip(k + 1), left, right, actor);
        }
        if same_id(cur.id, left) {
            splice_in_run(cur, actor, right, unit);
            proof {
                assert(s.take(k) + s.skip(k).insert(j - k + 1, u) =~= s.insert(j + 1, u));
            }
            break ;
        }
        match &mut cur.next {
            None => {
                proof {
                    assert(false);
                }
                break ;
            },
            Some(next) => {
                cur = &mut **next;
                proof {
                    k = k + 1;
                }
            },
        }
    }
}

/// Marks the first unit of the chain from `head` that is named `id` deleted.
pub(crate) fn mark_first_deleted<T>(head: &mut RgaUnit<T>, id: RgaUnitId)
    ensures
        final(head).chain() == mark_deleted(old(head).chain(), id),
{
    let ghost s = head.chain();
    let mut cur: &mut RgaUnit<T> = &mut *head;
    let ghost mut k: int = 0;
    loop
        invariant_except_break
            0 <= k < s.len(),
            cur.chain() == s.skip(k),
            forall|j: int| 0 <= j < k ==> s[j].id != id,
            after_borrow(*head).chain() == s.take(k) + final(cur).chain(),
        ensures
            after_borrow(*head).chain() == mark_deleted(s, id),
        decreases s.len() - k,
    {
        proof {
            cur.lemma_chain_shape();
        }
        if same_id(cur.id, id) {
            cur.is_tombstone = true;
            proof {
                lemma_first_index_is(s, id, k);
                cur.lemma_chain_shape();
                assert(s.take(k) + cur.chain() =~= mark_deleted(s, id));
            }
            break ;
        }
        match &mut cur.next {
            None => {
                proof {
                    lemma_first_index_is(s, id, s.len() as int);
                    assert(s.take(k) + cur.chain() =~= s);
                }
                break ;
            },
            Some(next) => {
                cur = &mut **next;
                proof {
                    k = k + 1;
                }
            },
        }
    }
}

/// Links `unit`, with whatever follows it, after the last unit of the chain
/// from `head`.
pub(crate) fn append<T>(head: &mut RgaUnit<T>, unit: RgaUnit<T>)
    ensures
        final(head).chain() == old(head).chain() + unit.chain(),
{
    let ghost s = head.chain();
    let ghost tail = unit.chain();
    let mut cur: &mut RgaUnit<T> = &mut *head;
    let ghost mut k: int = 0;
    loop
        invariant_except_break
            0 <= k < s.len(),
            cur.chain() == s.skip(k),
            after_borrow(*head).chain() == s.take(k) + final(cur).chain(),
            unit.chain() == tail,
        ensures
            after_borrow(*head).chain() == s + tail,
        decreases s.len() - k,
    {
        proof {
            cur.lemma_chain_shape();
        }
        if cur.next.is_none() {
            cur.next = Some(Box::new(unit));
            proof {
                cur.lemma_chain_shape();
                assert(s.take(k) + cur.chain() =~= s + tail);
            }
            break ;
        }
        match &mut cur.next {
            None => {
                proof {
                    assert(false);
                }
                break ;
            },
            Some(next) => {
                cur = &mut **next;
                proof {
                    k = k + 1;
                }
            },
        }
    }
}

/// Unlinks every deleted unit after `head`.
pub(crate) fn unlink_tombstones<T>(head: &mut RgaUnit<T>)
    ensures
        final(head).chain() == seq![old(head).unit_view()] + without_tombstones(
            old(head).chain().drop_first(),
        ),
{
    let ghost goal = seq![head.unit_view()] + without_tombstones(head.chain().drop_first());
    let ghost first = head.unit_view();
    let mut cur: &mut RgaUnit<T> = &mut *head;
    let ghost mut done: Seq<UnitView<T>> = Seq::empty();
    proof {
        assert(done + seq![cur.unit_view()] =~= seq![first]);
    }
    loop
        invariant_except_break
            (done + seq![cur.unit_view()]) + without_tombstones(cur.chain().drop_first()) == goal,
            after_borrow(*head).chain() == done + final(cur).chain(),
        ensures
            after_borrow(*head).chain() == goal,
        decreases cur.chain().len(),
    {
        proof {
            cur.lemma_chain_shape();
        }
        if cur.next.is_none() {
            proof {
                assert(without_tombstones(cur.chain().drop_first()) =~= Seq::<UnitView<T>>::empty());
                assert(done + cur.chain() =~= goal);
            }
            break ;
        }
        let dead = match &cur.next {
            Some(next) => next.is_tombstone,
            None => false,
        };
        if dead {
            let ghost rest = cur.chain().drop_first();
            let mut removed = cur.next.take().unwrap();
            proof {
                removed.lemma_chain_shape();
            }
            cur.next = removed.next.take();
            proof {
                cur.lemma_chain_shape();
                assert(cur.chain().drop_first() == rest.drop_first());
            }
        } else {
            proof {
                let rest = cur.chain().drop_first();
                cur.next.unwrap().lemma_chain_shape();
                assert(without_tombstones(rest) == seq![rest[0]] + without_tombstones(
                    rest.drop_first(),
                ));
                assert((done + seq![cur.unit_view()]) + without_tombstones(rest) =~= ((done + seq![
                    cur.unit_view(),
                ]) + seq![cur.next.unwrap().unit_view()]) + without_tombstones(
                    cur.next.unwrap().chain().drop_first(),
                ));
                done = done + seq![cur.unit_view()];
            }
            match &mut cur.next {
                None => {
                    proof {
                        assert(false);
                    }
                    break ;
                },
                Some(next) => {
                    cur = &mut **next;
                },
            }
        }
    }
}

} // verus!
