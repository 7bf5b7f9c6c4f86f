//! The RGA itself: its units, its abstract view, and the operations on it.

use vstd::prelude::*;

use crate::chain::{append, has_place, mark_first_deleted, splice_at_place, unlink_tombstones};
use crate::placement::{insertion_point, mark_deleted, place, visible, without_tombstones};

verus! {

/// Identifies a replica (an actor) that edits the document.
pub type ActorId = u64;

/// A logical clock value; each actor numbers its own inserts with it.
pub type ActorClock = u64;

/// A unit is named by the actor that made it and that actor's clock.
pub type RgaUnitId = (ActorId, ActorClock);

/// One element of the array, linked to the element that follows it.
#[derive(Debug)]
pub struct RgaUnit<T> {
    pub next: Option<Box<RgaUnit<T>>>,
    pub is_tombstone: bool,
    pub contents: T,
    pub id: RgaUnitId,
}

/// The array: an empty root unit followed by the document's units.
#[derive(Debug)]
pub struct Rga<T> {
    root: Box<RgaUnit<T>>,
    clock: ActorClock,
    actor_id: ActorId,
}

/// Where a new unit goes: right after a unit (past the run of units of lower
/// actors that follow it), or between two units.
#[derive(Debug, Clone, Copy)]
pub enum RgaInsertQuery {
    Right(RgaUnitId),
    Middle(RgaUnitId, RgaUnitId),
}

/// What a unit holds, apart from its link.
#[verifier::ext_equal]
pub struct UnitView<T> {
    pub id: RgaUnitId,
    pub is_tombstone: bool,
    pub contents: T,
}

/// The abstract state of an [`Rga`]: its units in order (the root first),
/// its clock and the actor that owns it.
#[verifier::ext_equal]
pub struct RgaView<T> {
    pub units: Seq<UnitView<T>>,
    pub clock: ActorClock,
    pub actor_id: ActorId,
}

impl<T> RgaUnit<T> {
    pub open spec fn unit_view(self) -> UnitView<T> {
        UnitView { id: self.id, is_tombstone: self.is_tombstone, contents: self.contents }
    }

    /// The units from this one to the end of its chain.
    pub open spec fn chain(self) -> Seq<UnitView<T>>
        decreases self,
    {
        match self.next {
            Some(next) => seq![self.unit_view()] + next.chain(),
            None => seq![self.unit_view()],
        }
    }
}

/// `b` holds the same units as `a`, each content a clone of the one in `a`.
pub open spec fn cloned_units<T: Clone>(a: Seq<UnitView<T>>, b: Seq<UnitView<T>>) -> bool {
    &&& a.len() == b.len()
    &&& forall|i: int|
        0 <= i < a.len() ==> {
            &&& #[trigger] b[i].id == a[i].id
            &&& b[i].is_tombstone == a[i].is_tombstone
            &&& cloned(a[i].contents, b[i].contents)
        }
}

impl<T: Clone> Clone for RgaUnit<T> {
    fn clone(&self) -> (res: Self)
        ensures
            cloned_units(self.chain(), res.chain()),
        decreases self,
    {
        let next = match &self.next {
            Some(next) => Some(Box::new((&**next).clone())),
            None => None,
        };
        let res = RgaUnit {
            next,
            is_tombstone: self.is_tombstone,
            contents: self.contents.clone(),
            id: self.id,
        };
        proof {
            let (a, b) = (self.chain(), res.chain());
            self.lemma_chain_shape();
            res.lemma_chain_shape();
            assert forall|i: int| 0 <= i < a.len() implies {
                &&& #[trigger] b[i].id == a[i].id
                &&& b[i].is_tombstone == a[i].is_tombstone
                &&& cloned(a[i].contents, b[i].contents)
            } by {
                if i > 0 {
                    let (na, nb) = (self.next.unwrap().chain(), res.next.unwrap().chain());
                    assert(a[i] == na[i - 1]);
                    assert(b[i] == nb[i - 1]);
                    assert(nb[i - 1].id == na[i - 1].id);
                } else {
                    assert(a[0] == self.unit_view());
                    assert(b[0] == res.unit_view());
                }
            }
        }
        res
    }
}

impl<T: Clone> Clone for Rga<T> {
    fn clone(&self) -> (res: Self)
        ensures
            res@.clock == self@.clock,
            res@.actor_id == self@.actor_id,
            cloned_units(self@.units, res@.units),
    {
        Rga { root: Box::new((&*self.root).clone()), clock: self.clock, actor_id: self.actor_id }
    }
}

/// The units of a chain that may be empty.
pub open spec fn chain_of<T>(link: Option<Box<RgaUnit<T>>>) -> Seq<UnitView<T>> {
    match link {
        Some(unit) => unit.chain(),
        None => Seq::empty(),
    }
}

impl<T> View for Rga<T> {
    type V = RgaView<T>;

    closed spec fn view(&self) -> RgaView<T> {
        RgaView { units: self.root.chain(), clock: self.clock, actor_id: self.actor_id }
    }
}

impl<T> RgaView<T> {
    /// The root comes first, is named by the owner and clock 0, and is live.
    pub open spec fn root_intact(self) -> bool {
        &&& self.units.len() >= 1
        &&& self.units[0].id == (self.actor_id, 0u64)
        &&& !self.units[0].is_tombstone
    }
}

impl<T> RgaView<T> {
    /// The actor an insert acts for: the one given, else the owner.
    pub open spec fn inserting_actor(self, actor: Option<ActorId>) -> ActorId {
        match actor {
            Some(a) => a,
            None => self.actor_id,
        }
    }

    /// The name a new unit gets: the inserting actor, and the clock given,
    /// else the owner's clock advanced by one.
    pub open spec fn new_unit_id(self, actor: Option<ActorId>, id: Option<ActorClock>) -> RgaUnitId {
        (
            self.inserting_actor(actor),
            match id {
                Some(c) => c,
                None => (self.clock + 1) as u64,
            },
        )
    }

    /// The query finds a place for a unit of the inserting actor.
    pub open spec fn finds_place(self, q: RgaInsertQuery, actor: Option<ActorId>) -> bool {
        insertion_point(self.units, q.left(), q.right(), self.inserting_actor(actor)) is Some
    }

    /// The state after an insert: the new live unit placed by the query, and
    /// the clock advanced when no clock was given; unchanged when the query
    /// finds no place.
    pub open spec fn after_insert(
        self,
        q: RgaInsertQuery,
        contents: T,
        actor: Option<ActorId>,
        id: Option<ActorClock>,
    ) -> RgaView<T> {
        if self.finds_place(q, actor) {
            RgaView {
                units: place(
                    self.units,
                    q,
                    UnitView { id: self.new_unit_id(actor, id), is_tombstone: false, contents },
                ),
                clock: if id is None {
                    (self.clock + 1) as u64
                } else {
                    self.clock
                },
                actor_id: self.actor_id,
            }
        } else {
            self
        }
    }

    /// What an insert returns: the new unit's name, or `None` when the query
    /// finds no place.
    pub open spec fn insert_result(
        self,
        q: RgaInsertQuery,
        actor: Option<ActorId>,
        id: Option<ActorClock>,
    ) -> Option<RgaUnitId> {
        if self.finds_place(q, actor) {
            Some(self.new_unit_id(actor, id))
        } else {
            None
        }
    }
}

impl<T> RgaView<T> {
    /// The state after a delete: the first unit named `id` marked deleted,
    /// unless `id` names a clock of 0 (a root), which nothing deletes.
    pub open spec fn after_delete(self, id: RgaUnitId) -> RgaView<T> {
        if id.1 == 0 {
            self
        } else {
            RgaView { units: mark_deleted(self.units, id), clock: self.clock, actor_id: self.actor_id }
        }
    }

    /// The state after compaction: the root, then the live units.
    pub open spec fn after_compact(self) -> RgaView<T> {
        RgaView {
            units: seq![self.units[0]] + without_tombstones(self.units.drop_first()),
            clock: self.clock,
            actor_id: self.actor_id,
        }
    }

    /// The document: the contents of the live units after the root.
    pub open spec fn text(self) -> Seq<T> {
        visible(self.units.drop_first())
    }
}

impl<T> RgaUnit<T> {
    pub proof fn lemma_chain_shape(self)
        ensures
            self.chain().len() >= 1,
            self.chain()[0] == self.unit_view(),
            self.next is None ==> self.chain().len() == 1,
            self.next is Some ==> self.chain().drop_first() == self.next.unwrap().chain(),
            self.chain() == seq![self.unit_view()] + chain_of(self.next),
            self.chain().drop_first() == chain_of(self.next),
    {
        if self.next is Some {
            assert(self.chain().drop_first() =~= self.next.unwrap().chain());
        }
        assert(self.chain() =~= seq![self.unit_view()] + chain_of(self.next));
    }

}

impl<T: Default> Rga<T> {
    /// An array owned by `actor_id` that holds only its root.
    pub fn new(actor_id: ActorId) -> (rga: Self)
        ensures
            rga@.actor_id == actor_id,
            rga@.clock == 0,
            rga@.units.len() == 1,
            rga@.root_intact(),
            call_ensures(T::default, (), rga@.units[0].contents),
    {
        Rga {
            root: Box::new(
                RgaUnit { next: None, is_tombstone: false, contents: T::default(), id: (actor_id, 0) },
            ),
            clock: 0,
            actor_id,
        }
    }
}

impl<T> Rga<T> {
    pub fn root(&self) -> (root: &RgaUnit<T>)
        ensures
            root.chain() == self@.units,
    {
        &self.root
    }

    pub fn clock(&self) -> (clock: ActorClock)
        ensures
            clock == self@.clock,
    {
        self.clock
    }

    /// Inserts `contents` where `query` places a unit of the inserting actor
    /// (`actor_id`, else the owner), named by that actor and the clock `id`,
    /// else by the owner's clock advanced by one. Returns the new unit's name,
    /// or `None`, changing nothing, when the query finds no place.
    pub fn insert(
        &mut self,
        query: RgaInsertQuery,
        contents: T,
        actor_id: Option<ActorId>,
        id: Option<ActorClock>,
    ) -> (res: Option<RgaUnitId>)
        requires
            id is None && old(self)@.finds_place(query, actor_id) ==> old(self)@.clock < u64::MAX,
        ensures
            final(self)@ == old(self)@.after_insert(query, contents, actor_id, id),
            res == old(self)@.insert_result(query, actor_id, id),
            res is Some == old(self)@.finds_place(query, actor_id),
            res matches Some(name) ==> name == (
                match actor_id {
                    Some(a) => a,
                    None => old(self)@.actor_id,
                },
                match id {
                    Some(c) => c,
                    None => final(self)@.clock,
                },
            ),
            res is Some && id is None ==> final(self)@.clock == old(self)@.clock + 1,
            res is None || id is Some ==> final(self)@.clock == old(self)@.clock,
            final(self)@.actor_id == old(self)@.actor_id,
    {
        let actor = match actor_id {
            Some(a) => a,
            None => self.actor_id,
        };
        let (left, right) = match query {
            RgaInsertQuery::Right(i) => (i, None),
            RgaInsertQuery::Middle(l, r) => (l, Some(r)),
        };
        if !has_place(&self.root, left, right, actor) {
            return None;
        }
        let clock = match id {
            Some(c) => c,
            None => {
                self.clock = self.clock + 1;
                self.clock
            },
        };
        let unit_id = (actor, clock);
        let unit = RgaUnit { next: None, is_tombstone: false, contents, id: unit_id };
        splice_at_place(&mut *self.root, left, right, actor, unit);
        Some(unit_id)
    }

    /// Marks the first unit named `id` deleted; a root (clock 0) and names
    /// that no unit bears are left alone.
    pub fn delete(&mut self, id: RgaUnitId)
        ensures
            final(self)@ == old(self)@.after_delete(id),
    {
        if id.1 == 0 {
            return;
        }
        mark_first_deleted(&mut *self.root, id);
    }

    /// Links `unit`, with whatever follows it, after the last unit.
    pub fn insert_last(&mut self, unit: RgaUnit<T>)
        ensures
            final(self)@ == (RgaView {
                units: old(self)@.units + unit.chain(),
                clock: old(self)@.clock,
                actor_id: old(self)@.actor_id,
            }),
    {
        append(&mut *self.root, unit);
    }

    /// Unlinks every deleted unit after the root.
    pub fn compact(&mut self)
        ensures
            final(self)@ == old(self)@.after_compact(),
    {
        unlink_tombstones(&mut *self.root);
    }
}

} // verus!
