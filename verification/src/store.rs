//! The flat form in which an array is stored and sent: its units after the
//! root, in order, without links.

use vstd::prelude::*;

use crate::rga::{ActorId, Rga, RgaUnit, RgaUnitId, RgaView, UnitView, cloned_units};

verus! {

pub struct RgaSerializer;

/// A unit as stored.
#[derive(Debug)]
pub struct RgaStoreUnit<T> {
    pub id: RgaUnitId,
    pub contents: T,
    pub is_tombstone: bool,
}

pub struct RgaDeserializer;

impl<T: Clone> Clone for RgaStoreUnit<T> {
    fn clone(&self) -> (res: Self)
        ensures
            res.id == self.id,
            res.is_tombstone == self.is_tombstone,
            cloned(self.contents, res.contents),
    {
        RgaStoreUnit { id: self.id, contents: self.contents.clone(), is_tombstone: self.is_tombstone }
    }
}

impl<T> RgaStoreUnit<T> {
    pub open spec fn unit_view(self) -> UnitView<T> {
        UnitView { id: self.id, is_tombstone: self.is_tombstone, contents: self.contents }
    }
}

/// The units that a stored sequence describes.
pub open spec fn stored_units<T>(s: Seq<RgaStoreUnit<T>>) -> Seq<UnitView<T>> {
    s.map_values(|u: RgaStoreUnit<T>| u.unit_view())
}

/// A stored sequence describes its units field by field: the unit at each
/// position has that stored unit's name, deletion mark and contents.
pub proof fn stored_units_keep_fields<T>(s: Seq<RgaStoreUnit<T>>)
    ensures
        stored_units(s).len() == s.len(),
        forall|i: int|
            0 <= i < s.len() ==> {
                &&& (#[trigger] stored_units(s)[i]).id == s[i].id
                &&& stored_units(s)[i].is_tombstone == s[i].is_tombstone
                &&& stored_units(s)[i].contents == s[i].contents
            },
{
}

impl RgaSerializer {
    /// The units after the root of `rga`, in order, each content cloned.
    pub fn to_vec<T: Clone>(rga: Rga<T>) -> (result: Vec<RgaStoreUnit<T>>)
        ensures
            cloned_units(rga@.units.drop_first(), stored_units(result@)),
            result@.len() == rga@.units.len() - 1,
            forall|i: int|
                0 <= i < result@.len() ==> {
                    &&& #[trigger] result@[i].id == rga@.units[i + 1].id
                    &&& result@[i].is_tombstone == rga@.units[i + 1].is_tombstone
                    &&& cloned(rga@.units[i + 1].contents, result@[i].contents)
                },
    {
        let mut result: Vec<RgaStoreUnit<T>> = Vec::new();
        let mut unit: &RgaUnit<T> = rga.root();
        proof {
            unit.lemma_chain_shape();
        }
        let ghost rest = rga@.units.drop_first();
        loop
            invariant
                result@.len() + unit.chain().len() == rga@.units.len(),
                unit.chain().drop_first() == rest.skip(result@.len() as int),
                cloned_units(rest.take(result@.len() as int), stored_units(result@)),
                rest == rga@.units.drop_first(),
            ensures
                cloned_units(rest, stored_units(result@)),
            decreases unit.chain().len(),
        {
            proof {
                unit.lemma_chain_shape();
            }
            match &unit.next {
                None => {
                    assert(rest.take(result@.len() as int) =~= rest);
                    break ;
                },
                Some(next) => {
                    let ghost n = result@.len() as int;
                    let ghost before = result@;
                    proof {
                        next.lemma_chain_shape();
                        assert(next.chain()[0] == rest[n]);
                    }
                    let contents = next.contents.clone();
                    result.push(RgaStoreUnit { id: next.id, contents, is_tombstone: next.is_tombstone });
                    proof {
                        let (a, b) = (rest.take(n + 1), stored_units(result@));
                        assert forall|i: int| 0 <= i < a.len() implies {
                            &&& #[trigger] b[i].id == a[i].id
                            &&& b[i].is_tombstone == a[i].is_tombstone
                            &&& cloned(a[i].contents, b[i].contents)
                        } by {
                            if i < n {
                                assert(a[i] == rest.take(n)[i]);
                                assert(b[i] == stored_units(before)[i]);
                                assert(stored_units(before)[i].id == rest.take(n)[i].id);
                            }
                        }
                        assert(next.chain().drop_first() =~= rest.skip(n + 1));
                    }
                    unit = next;
                },
            }
        }
        proof {
            stored_units_keep_fields(result@);
            assert forall|i: int| 0 <= i < result@.len() implies {
                &&& #[trigger] result@[i].id == rga@.units[i + 1].id
                &&& result@[i].is_tombstone == rga@.units[i + 1].is_tombstone
                &&& cloned(rga@.units[i + 1].contents, result@[i].contents)
            } by {
                assert(rga@.units.drop_first()[i] == rga@.units[i + 1]);
                assert(stored_units(result@)[i].id == rga@.units.drop_first()[i].id);
            }
        }
        result
    }
}

impl RgaDeserializer {
    /// An array owned by `actor_id` whose units after the root are the
    /// stored units, in order.
    pub fn from_vec<T: Default>(vec: Vec<RgaStoreUnit<T>>, actor_id: ActorId) -> (rga: Rga<T>)
        ensures
            rga@.actor_id == actor_id,
            rga@.clock == 0,
            rga@.root_intact(),
            call_ensures(T::default, (), rga@.units[0].contents),
            rga@.units.drop_first() == stored_units(vec@),
            rga@.units.len() == vec@.len() + 1,
            forall|i: int|
                0 <= i < vec@.len() ==> {
                    &&& #[trigger] rga@.units[i + 1].id == vec@[i].id
                    &&& rga@.units[i + 1].is_tombstone == vec@[i].is_tombstone
                    &&& rga@.units[i + 1].contents == vec@[i].contents
                },
    {
        broadcast use vstd::std_specs::vec::axiom_spec_into_iter;

        let mut rga = Rga::new(actor_id);
        let ghost stored = vec@;
        let ghost mut done: int = 0;
        for unit in iter: vec.into_iter()
            invariant
                iter.seq() == stored,
                done == iter.index(),
                rga@.actor_id == actor_id,
                rga@.clock == 0,
                rga@.root_intact(),
                call_ensures(T::default, (), rga@.units[0].contents),
                rga@.units.drop_first() == stored_units(iter.seq().take(iter.index() as int)),
        {
            let ghost before = rga@.units;
            let ghost src = unit;
            assert(src == stored[done]);
            let unit = RgaUnit {
                next: None,
                is_tombstone: unit.is_tombstone,
                contents: unit.contents,
                id: unit.id,
            };
            rga.insert_last(unit);
            proof {
                unit.lemma_chain_shape();
                assert(before.drop_first() == stored_units(stored.take(done)));
                assert(rga@.units.drop_first() =~= before.drop_first() + seq![src.unit_view()]);
                assert(rga@.units.drop_first() =~= stored_units(stored.take(done + 1)));
                done = done + 1;
            }
        }
        proof {
            assert(stored.take(done) =~= stored);
        }
        proof {
            stored_units_keep_fields(stored);
            assert forall|i: int| 0 <= i < vec@.len() implies {
                &&& #[trigger] rga@.units[i + 1].id == vec@[i].id
                &&& rga@.units[i + 1].is_tombstone == vec@[i].is_tombstone
                &&& rga@.units[i + 1].contents == vec@[i].contents
            } by {
                assert(rga@.units.drop_first()[i] == rga@.units[i + 1]);
                assert(stored_units(stored)[i].id == vec@[i].id);
            }
        }
        rga
    }
}

/// A stored document comes back whole: rebuilding an array of characters
/// from what [`RgaSerializer::to_vec`] gives back of `original` (a stored
/// sequence whose units clone those of `original` after its root) yields the
/// same units after the root, and so the same document.
pub proof fn stored_document_round_trips(
    original: RgaView<char>,
    stored: Seq<RgaStoreUnit<char>>,
    rebuilt: RgaView<char>,
)
    requires
        cloned_units(original.units.drop_first(), stored_units(stored)),
        rebuilt.units.drop_first() == stored_units(stored),
    ensures
        rebuilt.units.drop_first() == original.units.drop_first(),
        rebuilt.text() == original.text(),
{
    let (a, b) = (original.units.drop_first(), stored_units(stored));
    assert forall|i: int| 0 <= i < a.len() implies a[i] == b[i] by {
        assert(b[i].id == a[i].id);
        assert(cloned(a[i].contents, b[i].contents));
    }
    assert(a =~= b);
}

} // verus!
