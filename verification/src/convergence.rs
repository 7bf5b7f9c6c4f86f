//! Concurrent inserts converge: two actors that insert with the same query
//! reach the same array whichever insert arrives first, and the same
//! document even when both inserts take their names from the array's clock.

use vstd::prelude::*;

use crate::placement::{
    insertion_point, lemma_insert_behind_head, lemma_insertion_point_bounds, lemma_run_end_bounds,
    place, run_end, stops_before, visible,
};
use crate::rga::{ActorClock, ActorId, RgaInsertQuery, RgaUnitId, RgaView, UnitView};

verus! {

/// `s` with `u` put where the run starting at `s[0]` places a unit of its actor.
spec fn run_place<T>(s: Seq<UnitView<T>>, u: UnitView<T>, right: Option<RgaUnitId>) -> Seq<UnitView<T>> {
    match run_end(s, u.id.0, right) {
        Some(k) => s.insert(k + 1, u),
        None => s,
    }
}

proof fn lemma_run_place_keeps_head<T>(s: Seq<UnitView<T>>, u: UnitView<T>, right: Option<RgaUnitId>)
    requires
        s.len() >= 1,
    ensures
        run_place(s, u, right).len() >= 1,
        run_place(s, u, right)[0] == s[0],
{
    lemma_run_end_bounds(s, u.id.0, right);
}

/// Past a unit that does not stop `u`, placing in the run is placing in the rest.
proof fn lemma_run_place_skips<T>(s: Seq<UnitView<T>>, u: UnitView<T>, right: Option<RgaUnitId>)
    requires
        s.len() >= 2,
        !stops_before(s[1], u.id.0, right),
    ensures
        run_place(s, u, right) == seq![s[0]] + run_place(s.drop_first(), u, right),
{
    let t = s.drop_first();
    lemma_run_end_bounds(t, u.id.0, right);
    match run_end(t, u.id.0, right) {
        Some(k) => {
            lemma_insert_behind_head(s, k + 2, u);
        },
        None => {
            assert(s =~= seq![s[0]] + t);
        },
    }
}

/// A unit that stops `u` right behind `s[0]` puts `u` second.
proof fn lemma_run_place_stops<T>(s: Seq<UnitView<T>>, u: UnitView<T>, right: Option<RgaUnitId>)
    requires
        s.len() >= 2,
        stops_before(s[1], u.id.0, right),
    ensures
        run_place(s, u, right) == seq![s[0], u] + s.drop_first(),
{
    assert(s.insert(1, u) =~= seq![s[0], u] + s.drop_first());
}

proof fn lemma_run_place_single<T>(s: Seq<UnitView<T>>, u: UnitView<T>, right: Option<RgaUnitId>)
    requires
        s.len() == 1,
    ensures
        run_place(s, u, right) == if right is None {
            seq![s[0], u]
        } else {
            s
        },
{
    assert(s.insert(1, u) =~= seq![s[0], u]);
}

/// Two units of different actors, neither of them the right unit, end up in
/// the same places whichever of them is placed in the run first.
proof fn lemma_run_place_commutes<T>(
    s: Seq<UnitView<T>>,
    u: UnitView<T>,
    w: UnitView<T>,
    right: Option<RgaUnitId>,
)
    requires
        s.len() >= 1,
        u.id.0 != w.id.0,
        right != Some(u.id),
        right != Some(w.id),
    ensures
        run_place(run_place(s, u, right), w, right) == run_place(run_place(s, w, right), u, right),
    decreases s.len(),
{
    let (a, b) = (u.id.0, w.id.0);
    if s.len() == 1 {
        lemma_run_place_single(s, u, right);
        lemma_run_place_single(s, w, right);
        if right is None {
            let su = seq![s[0], u];
            let sw = seq![s[0], w];
            if b <= a {
                lemma_run_place_stops(su, w, right);
                assert(su.drop_first() =~= seq![u]);
                assert(seq![s[0], w] + seq![u] =~= seq![s[0], w, u]);
                lemma_run_place_skips(sw, u, right);
                assert(sw.drop_first() =~= seq![w]);
                lemma_run_place_single(seq![w], u, right);
                assert(seq![s[0]] + seq![w, u] =~= seq![s[0], w, u]);
            } else {
                lemma_run_place_skips(su, w, right);
                assert(su.drop_first() =~= seq![u]);
                lemma_run_place_single(seq![u], w, right);
                assert(seq![s[0]] + seq![u, w] =~= seq![s[0], u, w]);
                lemma_run_place_stops(sw, u, right);
                assert(sw.drop_first() =~= seq![w]);
                assert(seq![s[0], u] + seq![w] =~= seq![s[0], u, w]);
            }
        }
    } else {
        let t = s.drop_first();
        let e = s[1];
        let stop_u = stops_before(e, a, right);
        let stop_w = stops_before(e, b, right);
        if stop_u && stop_w {
            lemma_run_place_stops(s, u, right);
            lemma_run_place_stops(s, w, right);
            let su = seq![s[0], u] + t;
            let sw = seq![s[0], w] + t;
            assert(su[1] == u && sw[1] == w);
            assert(su.drop_first() =~= seq![u] + t);
            assert(sw.drop_first() =~= seq![w] + t);
            assert((seq![u] + t)[1] == e);
            assert((seq![w] + t)[1] == e);
            assert((seq![u] + t).drop_first() =~= t);
            assert((seq![w] + t).drop_first() =~= t);
            if b < a {
                lemma_run_place_stops(su, w, right);
                lemma_run_place_skips(sw, u, right);
                lemma_run_place_stops(seq![w] + t, u, right);
                assert(seq![s[0], w] + (seq![u] + t) =~= seq![s[0]] + (seq![w, u] + t));
            } else {
                lemma_run_place_skips(su, w, right);
                lemma_run_place_stops(seq![u] + t, w, right);
                lemma_run_place_stops(sw, u, right);
                assert(seq![s[0]] + (seq![u, w] + t) =~= seq![s[0], u] + (seq![w] + t));
            }
        } else if stop_u != stop_w {
            // The one that stops at `e` has the lower actor; the other passes it.
            let (lo, hi) = if stop_u {
                (u, w)
            } else {
                (w, u)
            };
            lemma_run_place_stops(s, lo, right);
            lemma_run_place_skips(s, hi, right);
            let sl = seq![s[0], lo] + t;
            assert(sl.drop_first() =~= seq![lo] + t);
            assert((seq![lo] + t)[1] == e);
            assert((seq![lo] + t).drop_first() =~= t);
            lemma_run_place_skips(sl, hi, right);
            lemma_run_place_skips(seq![lo] + t, hi, right);
            let rest = run_place(t, hi, right);
            lemma_run_place_keeps_head(t, hi, right);
            let sh = seq![s[0]] + rest;
            assert(sh[1] == e);
            assert(sh.drop_first() =~= rest);
            lemma_run_place_stops(sh, lo, right);
            assert(seq![s[0]] + (seq![lo] + rest) =~= seq![s[0], lo] + rest);
        } else {
            lemma_run_place_skips(s, u, right);
            lemma_run_place_skips(s, w, right);
            let tu = run_place(t, u, right);
            let tw = run_place(t, w, right);
            lemma_run_place_keeps_head(t, u, right);
            lemma_run_place_keeps_head(t, w, right);
            assert((seq![s[0]] + tu)[1] == e);
            assert((seq![s[0]] + tw)[1] == e);
            assert((seq![s[0]] + tu).drop_first() =~= tu);
            assert((seq![s[0]] + tw).drop_first() =~= tw);
            lemma_run_place_skips(seq![s[0]] + tu, w, right);
            lemma_run_place_skips(seq![s[0]] + tw, u, right);
            lemma_run_place_commutes(t, u, w, right);
        }
    }
}

/// Where the first unit is not the left unit, placing is placing in the rest.
proof fn lemma_place_skips<T>(s: Seq<UnitView<T>>, q: RgaInsertQuery, u: UnitView<T>)
    requires
        s.len() >= 1,
        s[0].id != q.left(),
    ensures
        place(s, q, u) == seq![s[0]] + place(s.drop_first(), q, u),
{
    let t = s.drop_first();
    lemma_insertion_point_bounds(t, q.left(), q.right(), u.id.0);
    match insertion_point(t, q.left(), q.right(), u.id.0) {
        Some(k) => {
            lemma_insert_behind_head(s, k + 2, u);
        },
        None => {
            assert(s =~= seq![s[0]] + t);
        },
    }
}

/// Placing keeps the first unit first.
proof fn lemma_place_keeps_head<T>(s: Seq<UnitView<T>>, q: RgaInsertQuery, u: UnitView<T>)
    requires
        s.len() >= 1,
    ensures
        place(s, q, u).len() >= 1,
        place(s, q, u)[0] == s[0],
{
    lemma_insertion_point_bounds(s, q.left(), q.right(), u.id.0);
}

/// Two units of different actors, neither named as the query's right unit,
/// placed by the same query, end up in the same places in either order.
pub proof fn lemma_place_commutes<T>(s: Seq<UnitView<T>>, q: RgaInsertQuery, u: UnitView<T>, w: UnitView<T>)
    requires
        u.id.0 != w.id.0,
        q.right() != Some(u.id),
        q.right() != Some(w.id),
    ensures
        place(place(s, q, u), q, w) == place(place(s, q, w), q, u),
    decreases s.len(),
{
    if s.len() > 0 {
        lemma_place_keeps_head(s, q, u);
        lemma_place_keeps_head(s, q, w);
        if s[0].id == q.left() {
            lemma_run_place_commutes(s, u, w, q.right());
        } else {
            let t = s.drop_first();
            lemma_place_skips(s, q, u);
            lemma_place_skips(s, q, w);
            let tu = place(t, q, u);
            let tw = place(t, q, w);
            assert((seq![s[0]] + tu)[0] == s[0]);
            assert((seq![s[0]] + tw)[0] == s[0]);
            assert((seq![s[0]] + tu).drop_first() =~= tu);
            assert((seq![s[0]] + tw).drop_first() =~= tw);
            lemma_place_skips(seq![s[0]] + tu, q, w);
            lemma_place_skips(seq![s[0]] + tw, q, u);
            lemma_place_commutes(t, q, u, w);
        }
    }
}

/// With no right unit, every run has a place.
proof fn lemma_run_end_open<T>(s: Seq<UnitView<T>>, actor: ActorId)
    ensures
        run_end(s, actor, None) is Some,
    decreases s.len(),
{
    if s.len() > 1 && !stops_before(s[1], actor, None) {
        lemma_run_end_open(s.drop_first(), actor);
    }
}

/// Placing `w` in the run does not decide whether the run has a place for `u`.
proof fn lemma_run_place_keeps_room<T>(
    s: Seq<UnitView<T>>,
    u: UnitView<T>,
    w: UnitView<T>,
    right: Option<RgaUnitId>,
)
    requires
        s.len() >= 1,
        right != Some(w.id),
    ensures
        (run_end(run_place(s, w, right), u.id.0, right) is Some) == (run_end(s, u.id.0, right) is Some),
    decreases s.len(),
{
    let (a, b) = (u.id.0, w.id.0);
    if right is None {
        lemma_run_end_open(run_place(s, w, right), a);
        lemma_run_end_open(s, a);
    } else if s.len() == 1 {
        lemma_run_place_single(s, w, right);
    } else {
        let t = s.drop_first();
        let e = s[1];
        if stops_before(e, b, right) {
            lemma_run_place_stops(s, w, right);
            let sw = seq![s[0], w] + t;
            assert(sw[1] == w);
            assert(sw.drop_first() =~= seq![w] + t);
            assert((seq![w] + t)[1] == e);
            assert((seq![w] + t).drop_first() =~= t);
            if !stops_before(w, a, right) {
                assert(run_end(sw, a, right) is Some == run_end(seq![w] + t, a, right) is Some);
                assert(run_end(seq![w] + t, a, right) is Some == run_end(s, a, right) is Some);
            }
        } else {
            lemma_run_place_skips(s, w, right);
            let tw = run_place(t, w, right);
            lemma_run_place_keeps_head(t, w, right);
            assert((seq![s[0]] + tw)[1] == e);
            assert((seq![s[0]] + tw).drop_first() =~= tw);
            lemma_run_place_keeps_room(t, u, w, right);
        }
    }
}

/// Placing `w` by a query does not decide whether the query has a place for `u`.
pub proof fn lemma_place_keeps_room<T>(s: Seq<UnitView<T>>, q: RgaInsertQuery, u: UnitView<T>, w: UnitView<T>)
    requires
        q.right() != Some(w.id),
    ensures
        (insertion_point(place(s, q, w), q.left(), q.right(), u.id.0) is Some) == (insertion_point(
            s,
            q.left(),
            q.right(),
            u.id.0,
        ) is Some),
    decreases s.len(),
{
    if s.len() > 0 {
        lemma_place_keeps_head(s, q, w);
        if s[0].id == q.left() {
            lemma_run_place_keeps_room(s, u, w, q.right());
        } else {
            let t = s.drop_first();
            lemma_place_skips(s, q, w);
            let tw = place(t, q, w);
            assert((seq![s[0]] + tw)[0] == s[0]);
            assert((seq![s[0]] + tw).drop_first() =~= tw);
            lemma_place_keeps_room(t, q, u, w);
        }
    }
}

/// Concurrent inserts converge: two inserts that different actors make with
/// the same query leave the same array, and get the same answers, whichever
/// is applied first, as long as at most one of them takes its clock from the
/// array and neither new unit is named as the query's right unit.
pub proof fn concurrent_inserts_converge<T>(
    v: RgaView<T>,
    q: RgaInsertQuery,
    first: T,
    first_actor: Option<ActorId>,
    first_id: Option<ActorClock>,
    second: T,
    second_actor: Option<ActorId>,
    second_id: Option<ActorClock>,
)
    requires
        v.inserting_actor(first_actor) != v.inserting_actor(second_actor),
        !(first_id is None && second_id is None),
        q.right() != Some(v.new_unit_id(first_actor, first_id)),
        q.right() != Some(v.new_unit_id(second_actor, second_id)),
    ensures
        v.after_insert(q, first, first_actor, first_id).after_insert(q, second, second_actor, second_id)
            == v.after_insert(q, second, second_actor, second_id).after_insert(
            q,
            first,
            first_actor,
            first_id,
        ),
        v.after_insert(q, first, first_actor, first_id).insert_result(q, second_actor, second_id)
            == v.insert_result(q, second_actor, second_id),
        v.after_insert(q, second, second_actor, second_id).insert_result(q, first_actor, first_id)
            == v.insert_result(q, first_actor, first_id),
{
    let u = UnitView { id: v.new_unit_id(first_actor, first_id), is_tombstone: false, contents: first };
    let w = UnitView {
        id: v.new_unit_id(second_actor, second_id),
        is_tombstone: false,
        contents: second,
    };
    let vu = v.after_insert(q, first, first_actor, first_id);
    let vw = v.after_insert(q, second, second_actor, second_id);
    assert(vu.units == place(v.units, q, u));
    assert(vw.units == place(v.units, q, w));
    assert(vu.new_unit_id(second_actor, second_id) == w.id);
    assert(vw.new_unit_id(first_actor, first_id) == u.id);
    lemma_place_keeps_room(v.units, q, w, u);
    lemma_place_keeps_room(v.units, q, u, w);
    lemma_place_commutes(v.units, q, u, w);
    let l = vu.after_insert(q, second, second_actor, second_id);
    let r = vw.after_insert(q, first, first_actor, first_id);
    assert(l.units == r.units);
    assert(l =~= r);
}

/// `a` and `b` show the same document: unit by unit, the same contents,
/// live or deleted alike (the names may differ).
pub open spec fn same_shown<T>(a: Seq<UnitView<T>>, b: Seq<UnitView<T>>) -> bool {
    &&& a.len() == b.len()
    &&& forall|i: int|
        0 <= i < a.len() ==> #[trigger] a[i].contents == b[i].contents && a[i].is_tombstone
            == b[i].is_tombstone
}

/// `x` and `y` are the same unit but for their clocks.
spec fn renamed<T>(x: UnitView<T>, y: UnitView<T>) -> bool {
    x.id.0 == y.id.0 && x.contents == y.contents && x.is_tombstone == y.is_tombstone
}

proof fn lemma_same_shown_visible<T>(a: Seq<UnitView<T>>, b: Seq<UnitView<T>>)
    requires
        same_shown(a, b),
    ensures
        visible(a) == visible(b),
    decreases a.len(),
{
    if a.len() > 0 {
        assert(a[0].contents == b[0].contents);
        assert forall|i: int| 0 <= i < a.drop_first().len() implies #[trigger] a.drop_first()[i].contents
            == b.drop_first()[i].contents && a.drop_first()[i].is_tombstone
            == b.drop_first()[i].is_tombstone by {
            assert(a[i + 1].contents == b[i + 1].contents);
        }
        lemma_same_shown_visible(a.drop_first(), b.drop_first());
    }
}

proof fn lemma_same_shown_cat<T>(
    a1: Seq<UnitView<T>>,
    b1: Seq<UnitView<T>>,
    a2: Seq<UnitView<T>>,
    b2: Seq<UnitView<T>>,
)
    requires
        same_shown(a1, a2),
        same_shown(b1, b2),
    ensures
        same_shown(a1 + b1, a2 + b2),
{
    assert forall|i: int| 0 <= i < (a1 + b1).len() implies #[trigger] (a1 + b1)[i].contents == (a2
        + b2)[i].contents && (a1 + b1)[i].is_tombstone == (a2 + b2)[i].is_tombstone by {
        if i < a1.len() {
            assert(a1[i].contents == a2[i].contents);
        } else {
            assert(b1[i - a1.len()].contents == b2[i - a1.len()].contents);
        }
    }
}

proof fn lemma_same_shown_refl<T>(a: Seq<UnitView<T>>)
    ensures
        same_shown(a, a),
{
}

proof fn lemma_same_shown_units<T>(x: UnitView<T>, y: UnitView<T>)
    requires
        renamed(x, y),
    ensures
        same_shown(seq![x], seq![y]),
{
    assert(seq![x][0].contents == seq![y][0].contents);
}

/// Units that differ only in their clocks land in the same place of a run.
proof fn lemma_run_place_renamed<T>(
    s: Seq<UnitView<T>>,
    u1: UnitView<T>,
    u2: UnitView<T>,
    right: Option<RgaUnitId>,
)
    requires
        s.len() >= 1,
        renamed(u1, u2),
    ensures
        same_shown(run_place(s, u1, right), run_place(s, u2, right)),
{
    lemma_run_end_bounds(s, u1.id.0, right);
    lemma_same_shown_refl(s);
    if let Some(k) = run_end(s, u1.id.0, right) {
        assert(s.insert(k + 1, u1) =~= s.take(k + 1) + (seq![u1] + s.skip(k + 1)));
        assert(s.insert(k + 1, u2) =~= s.take(k + 1) + (seq![u2] + s.skip(k + 1)));
        lemma_same_shown_units(u1, u2);
        lemma_same_shown_refl(s.take(k + 1));
        lemma_same_shown_refl(s.skip(k + 1));
        lemma_same_shown_cat(seq![u1], s.skip(k + 1), seq![u2], s.skip(k + 1));
        lemma_same_shown_cat(s.take(k + 1), seq![u1] + s.skip(k + 1), s.take(k + 1), seq![u2] + s.skip(k + 1));
    }
}

/// Placing two units in a run shows the same document whatever clocks they
/// carry, as long as none of them is the right unit.
proof fn lemma_run_place_twice_renamed<T>(
    s: Seq<UnitView<T>>,
    u1: UnitView<T>,
    u2: UnitView<T>,
    w1: UnitView<T>,
    w2: UnitView<T>,
    right: Option<RgaUnitId>,
)
    requires
        s.len() >= 1,
        renamed(u1, u2),
        renamed(w1, w2),
        right != Some(u1.id),
        right != Some(u2.id),
    ensures
        same_shown(
            run_place(run_place(s, u1, right), w1, right),
            run_place(run_place(s, u2, right), w2, right),
        ),
    decreases s.len(),
{
    let (a, b) = (u1.id.0, w1.id.0);
    let s0 = seq![s[0]];
    lemma_same_shown_refl(s0);
    lemma_same_shown_units(u1, u2);
    lemma_same_shown_units(w1, w2);
    if s.len() == 1 {
        lemma_run_place_single(s, u1, right);
        lemma_run_place_single(s, u2, right);
        if right is None {
            let x1 = seq![s[0], u1];
            let x2 = seq![s[0], u2];
            assert(x1.drop_first() =~= seq![u1]);
            assert(x2.drop_first() =~= seq![u2]);
            if stops_before(u1, b, right) {
                lemma_run_place_stops(x1, w1, right);
                lemma_run_place_stops(x2, w2, right);
                assert(seq![s[0], w1] + seq![u1] =~= (s0 + seq![w1]) + seq![u1]);
                assert(seq![s[0], w2] + seq![u2] =~= (s0 + seq![w2]) + seq![u2]);
                lemma_same_shown_cat(s0, seq![w1], s0, seq![w2]);
                lemma_same_shown_cat(s0 + seq![w1], seq![u1], s0 + seq![w2], seq![u2]);
            } else {
                lemma_run_place_skips(x1, w1, right);
                lemma_run_place_skips(x2, w2, right);
                lemma_run_place_single(seq![u1], w1, right);
                lemma_run_place_single(seq![u2], w2, right);
                assert(seq![u1, w1] =~= seq![u1] + seq![w1]);
                assert(seq![u2, w2] =~= seq![u2] + seq![w2]);
                lemma_same_shown_cat(seq![u1], seq![w1], seq![u2], seq![w2]);
                lemma_same_shown_cat(s0, seq![u1, w1], s0, seq![u2, w2]);
            }
        }
    } else {
        let t = s.drop_first();
        let e = s[1];
        lemma_same_shown_refl(t);
        if stops_before(e, a, right) {
            lemma_run_place_stops(s, u1, right);
            lemma_run_place_stops(s, u2, right);
            let x1 = seq![s[0], u1] + t;
            let x2 = seq![s[0], u2] + t;
            assert(x1[1] == u1 && x2[1] == u2);
            assert(x1.drop_first() =~= seq![u1] + t);
            assert(x2.drop_first() =~= seq![u2] + t);
            if stops_before(u1, b, right) {
                lemma_run_place_stops(x1, w1, right);
                lemma_run_place_stops(x2, w2, right);
                assert(seq![s[0], w1] + (seq![u1] + t) =~= (s0 + seq![w1]) + (seq![u1] + t));
                assert(seq![s[0], w2] + (seq![u2] + t) =~= (s0 + seq![w2]) + (seq![u2] + t));
                lemma_same_shown_cat(s0, seq![w1], s0, seq![w2]);
                lemma_same_shown_cat(seq![u1], t, seq![u2], t);
                lemma_same_shown_cat(s0 + seq![w1], seq![u1] + t, s0 + seq![w2], seq![u2] + t);
            } else {
                lemma_run_place_skips(x1, w1, right);
                lemma_run_place_skips(x2, w2, right);
                let y1 = seq![u1] + t;
                let y2 = seq![u2] + t;
                assert(y1[1] == e && y2[1] == e);
                assert(y1.drop_first() =~= t && y2.drop_first() =~= t);
                lemma_run_place_skips_or_stops(y1, w1, right);
                lemma_run_place_skips_or_stops(y2, w2, right);
                if stops_before(e, b, right) {
                    lemma_same_shown_cat(seq![u1], seq![w1], seq![u2], seq![w2]);
                    assert(seq![u1, w1] =~= seq![u1] + seq![w1]);
                    assert(seq![u2, w2] =~= seq![u2] + seq![w2]);
                    lemma_same_shown_cat(seq![u1, w1], t, seq![u2, w2], t);
                    lemma_same_shown_cat(s0, seq![u1, w1] + t, s0, seq![u2, w2] + t);
                } else {
                    lemma_run_place_renamed(t, w1, w2, right);
                    lemma_same_shown_cat(seq![u1], run_place(t, w1, right), seq![u2], run_place(t, w2, right));
                    lemma_same_shown_cat(
                        s0,
                        seq![u1] + run_place(t, w1, right),
                        s0,
                        seq![u2] + run_place(t, w2, right),
                    );
                }
            }
        } else {
            lemma_run_place_skips(s, u1, right);
            lemma_run_place_skips(s, u2, right);
            let r1 = run_place(t, u1, right);
            let r2 = run_place(t, u2, right);
            lemma_run_place_keeps_head(t, u1, right);
            lemma_run_place_keeps_head(t, u2, right);
            let x1 = s0 + r1;
            let x2 = s0 + r2;
            assert(x1[1] == e && x2[1] == e);
            assert(x1.drop_first() =~= r1 && x2.drop_first() =~= r2);
            lemma_run_place_skips_or_stops(x1, w1, right);
            lemma_run_place_skips_or_stops(x2, w2, right);
            lemma_run_place_renamed(t, u1, u2, right);
            if stops_before(e, b, right) {
                lemma_same_shown_cat(s0, seq![w1], s0, seq![w2]);
                assert(seq![s[0], w1] =~= s0 + seq![w1]);
                assert(seq![s[0], w2] =~= s0 + seq![w2]);
                lemma_same_shown_cat(seq![s[0], w1], r1, seq![s[0], w2], r2);
            } else {
                lemma_run_place_twice_renamed(t, u1, u2, w1, w2, right);
                lemma_same_shown_cat(s0, run_place(r1, w1, right), s0, run_place(r2, w2, right));
            }
        }
    }
}

/// Behind a first unit, a unit either stops there or is placed in the rest.
proof fn lemma_run_place_skips_or_stops<T>(s: Seq<UnitView<T>>, u: UnitView<T>, right: Option<RgaUnitId>)
    requires
        s.len() >= 2,
    ensures
        stops_before(s[1], u.id.0, right) ==> run_place(s, u, right) == seq![s[0], u] + s.drop_first(),
        !stops_before(s[1], u.id.0, right) ==> run_place(s, u, right) == seq![s[0]] + run_place(
            s.drop_first(),
            u,
            right,
        ),
{
    if stops_before(s[1], u.id.0, right) {
        lemma_run_place_stops(s, u, right);
    } else {
        lemma_run_place_skips(s, u, right);
    }
}

/// Placing two units by a query shows the same document whatever clocks they
/// carry, as long as none of them is the query's right unit.
proof fn lemma_place_twice_renamed<T>(
    s: Seq<UnitView<T>>,
    q: RgaInsertQuery,
    u1: UnitView<T>,
    u2: UnitView<T>,
    w1: UnitView<T>,
    w2: UnitView<T>,
)
    requires
        renamed(u1, u2),
        renamed(w1, w2),
        q.right() != Some(u1.id),
        q.right() != Some(u2.id),
    ensures
        same_shown(place(place(s, q, u1), q, w1), place(place(s, q, u2), q, w2)),
    decreases s.len(),
{
    if s.len() == 0 {
        lemma_same_shown_refl(s);
    } else {
        lemma_place_keeps_head(s, q, u1);
        lemma_place_keeps_head(s, q, u2);
        if s[0].id == q.left() {
            lemma_run_place_twice_renamed(s, u1, u2, w1, w2, q.right());
        } else {
            let t = s.drop_first();
            let s0 = seq![s[0]];
            lemma_place_skips(s, q, u1);
            lemma_place_skips(s, q, u2);
            let t1 = place(t, q, u1);
            let t2 = place(t, q, u2);
            assert((s0 + t1)[0] == s[0] && (s0 + t2)[0] == s[0]);
            assert((s0 + t1).drop_first() =~= t1);
            assert((s0 + t2).drop_first() =~= t2);
            lemma_place_skips(s0 + t1, q, w1);
            lemma_place_skips(s0 + t2, q, w2);
            lemma_place_twice_renamed(t, q, u1, u2, w1, w2);
            lemma_same_shown_refl(s0);
            lemma_same_shown_cat(s0, place(t1, q, w1), s0, place(t2, q, w2));
        }
    }
}

proof fn lemma_same_shown_rest<T>(a: Seq<UnitView<T>>, b: Seq<UnitView<T>>)
    requires
        same_shown(a, b),
        a.len() >= 1,
    ensures
        same_shown(a.drop_first(), b.drop_first()),
{
    assert forall|i: int| 0 <= i < a.drop_first().len() implies #[trigger] a.drop_first()[i].contents
        == b.drop_first()[i].contents && a.drop_first()[i].is_tombstone
        == b.drop_first()[i].is_tombstone by {
        assert(a[i + 1].contents == b[i + 1].contents);
    }
}

/// Concurrent inserts show the same document: two inserts that different
/// actors make with the same query leave arrays that show the same document,
/// and have the same clock, whichever is applied first, whatever clocks name
/// the new units, as long as no name that a new unit can get in either order
/// is the query's right unit. (The names themselves may differ between the
/// orders when both inserts take their clock from the array.)
pub proof fn concurrent_inserts_show_same_document<T>(
    v: RgaView<T>,
    q: RgaInsertQuery,
    first: T,
    first_actor: Option<ActorId>,
    first_id: Option<ActorClock>,
    second: T,
    second_actor: Option<ActorId>,
    second_id: Option<ActorClock>,
)
    requires
        v.inserting_actor(first_actor) != v.inserting_actor(second_actor),
        q.right() != Some(v.new_unit_id(first_actor, first_id)),
        q.right() != Some(v.new_unit_id(second_actor, second_id)),
        q.right() != Some(
            v.after_insert(q, second, second_actor, second_id).new_unit_id(first_actor, first_id),
        ),
        q.right() != Some(
            v.after_insert(q, first, first_actor, first_id).new_unit_id(second_actor, second_id),
        ),
    ensures
        v.after_insert(q, first, first_actor, first_id).after_insert(
            q,
            second,
            second_actor,
            second_id,
        ).text() == v.after_insert(q, second, second_actor, second_id).after_insert(
            q,
            first,
            first_actor,
            first_id,
        ).text(),
        v.after_insert(q, first, first_actor, first_id).after_insert(
            q,
            second,
            second_actor,
            second_id,
        ).clock == v.after_insert(q, second, second_actor, second_id).after_insert(
            q,
            first,
            first_actor,
            first_id,
        ).clock,
{
    let vu = v.after_insert(q, first, first_actor, first_id);
    let vw = v.after_insert(q, second, second_actor, second_id);
    let u1 = UnitView { id: v.new_unit_id(first_actor, first_id), is_tombstone: false, contents: first };
    let w1 = UnitView {
        id: vu.new_unit_id(second_actor, second_id),
        is_tombstone: false,
        contents: second,
    };
    let w2 = UnitView {
        id: v.new_unit_id(second_actor, second_id),
        is_tombstone: false,
        contents: second,
    };
    let u2 = UnitView {
        id: vw.new_unit_id(first_actor, first_id),
        is_tombstone: false,
        contents: first,
    };
    assert(vu.units == place(v.units, q, u1));
    assert(vw.units == place(v.units, q, w2));
    let l = vu.after_insert(q, second, second_actor, second_id);
    let r = vw.after_insert(q, first, first_actor, first_id);
    assert(l.units == place(place(v.units, q, u1), q, w1));
    assert(r.units == place(place(v.units, q, w2), q, u2));
    lemma_place_keeps_room(v.units, q, w2, u1);
    lemma_place_keeps_room(v.units, q, u1, w2);
    lemma_place_commutes(v.units, q, u2, w2);
    lemma_place_twice_renamed(v.units, q, u1, u2, w1, w2);
    if v.units.len() >= 1 {
        lemma_place_keeps_head(v.units, q, u1);
        lemma_place_keeps_head(place(v.units, q, u1), q, w1);
        lemma_same_shown_rest(l.units, r.units);
        lemma_same_shown_visible(l.units.drop_first(), r.units.drop_first());
    } else {
        assert(l.units =~= r.units);
    }
}

} // verus!
