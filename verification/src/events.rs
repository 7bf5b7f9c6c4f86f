//! The edits that clients of a shared document exchange, and what the server
//! does with an edit that one of them sends.

use vstd::prelude::*;

use crate::convergence::concurrent_inserts_converge;
use crate::laws::{deletes_commute, insert_and_delete_commute};
use crate::rga::{ActorClock, ActorId, Rga, RgaInsertQuery, RgaUnitId, RgaView};
use crate::store::RgaStoreUnit;

verus! {

/// What happened to the document.
#[derive(Debug)]
pub enum RealtimeEventKind {
    Insert { id: RgaUnitId, contents: char, query: RgaInsertQuery },
    Delete { id: RgaUnitId },
    Compact,
    StateSync { state: Vec<RgaStoreUnit<char>> },
}

/// An event, with the actor that sent it and the document's clock once it
/// was applied.
#[derive(Debug)]
pub struct RealtimeEvent {
    pub actor: ActorId,
    pub version: ActorClock,
    pub kind: RealtimeEventKind,
}

/// `b` is a clone of the event kind `a`: the same, but for stored units,
/// which are clones.
pub open spec fn kind_cloned(a: RealtimeEventKind, b: RealtimeEventKind) -> bool {
    match (a, b) {
        (RealtimeEventKind::StateSync { state: x }, RealtimeEventKind::StateSync { state: y }) => {
            &&& x.len() == y.len()
            &&& forall|i: int| 0 <= i < x.len() ==> cloned(#[trigger] x@[i], y@[i])
        },
        (RealtimeEventKind::StateSync { .. }, _) => false,
        _ => a == b,
    }
}

impl Clone for RealtimeEventKind {
    fn clone(&self) -> (res: Self)
        ensures
            kind_cloned(*self, res),
    {
        match self {
            RealtimeEventKind::Insert { id, contents, query } => RealtimeEventKind::Insert {
                id: *id,
                contents: *contents,
                query: *query,
            },
            RealtimeEventKind::Delete { id } => RealtimeEventKind::Delete { id: *id },
            RealtimeEventKind::Compact => RealtimeEventKind::Compact,
            RealtimeEventKind::StateSync { state } => RealtimeEventKind::StateSync {
                state: state.clone(),
            },
        }
    }
}

impl Clone for RealtimeEvent {
    fn clone(&self) -> (res: Self)
        ensures
            res.actor == self.actor,
            res.version == self.version,
            kind_cloned(self.kind, res.kind),
    {
        RealtimeEvent { actor: self.actor, version: self.version, kind: self.kind.clone() }
    }
}

/// The document after the edit `kind` from the client known as `actor_id`.
pub open spec fn after_event(v: RgaView<char>, actor_id: ActorId, kind: RealtimeEventKind) -> RgaView<char> {
    match kind {
        RealtimeEventKind::Insert { id, contents, query } => v.after_insert(
            query,
            contents,
            Some(actor_id),
            Some(id.1),
        ),
        RealtimeEventKind::Delete { id } => v.after_delete(id),
        _ => v,
    }
}

/// An edit event acts on the array exactly as the array's own operation
/// does: an insert from client `actor_id` is that client's insert with the
/// clock it chose, whatever the query, and a delete from any client is a
/// delete of the named unit, whoever made it; other kinds change nothing.
pub proof fn edit_events_act_as_array_operations(
    v: RgaView<char>,
    actor_id: ActorId,
    id: RgaUnitId,
    contents: char,
    query: RgaInsertQuery,
)
    ensures
        after_event(v, actor_id, RealtimeEventKind::Insert { id, contents, query }) == v.after_insert(
            query,
            contents,
            Some(actor_id),
            Some(id.1),
        ),
        after_event(v, actor_id, RealtimeEventKind::Delete { id }) == v.after_delete(id),
        after_event(v, actor_id, RealtimeEventKind::Compact) == v,
{
}

/// Two edits from different clients that the server may apply in either
/// order: inserts with the same query, neither of whose new units is the
/// query's right unit; an insert and a delete of another unit; two deletes;
/// and anything beside an edit that changes nothing.
pub open spec fn independent_edits(
    first_actor: ActorId,
    first: RealtimeEventKind,
    second_actor: ActorId,
    second: RealtimeEventKind,
) -> bool {
    match (first, second) {
        (
            RealtimeEventKind::Insert { id: first_id, query: first_query, .. },
            RealtimeEventKind::Insert { id: second_id, query: second_query, .. },
        ) => {
            &&& first_query == second_query
            &&& first_actor != second_actor
            &&& first_query.right() != Some((first_actor, first_id.1))
            &&& second_query.right() != Some((second_actor, second_id.1))
        },
        (RealtimeEventKind::Insert { id, .. }, RealtimeEventKind::Delete { id: deleted }) => deleted
            != (first_actor, id.1),
        (RealtimeEventKind::Delete { id: deleted }, RealtimeEventKind::Insert { id, .. }) => deleted
            != (second_actor, id.1),
        _ => true,
    }
}

/// Independent edits from different clients leave the same document in
/// either order, so every client that applies them converges.
pub proof fn independent_edits_converge(
    v: RgaView<char>,
    first_actor: ActorId,
    first: RealtimeEventKind,
    second_actor: ActorId,
    second: RealtimeEventKind,
)
    requires
        independent_edits(first_actor, first, second_actor, second),
    ensures
        after_event(after_event(v, first_actor, first), second_actor, second) == after_event(
            after_event(v, second_actor, second),
            first_actor,
            first,
        ),
{
    match (first, second) {
        (
            RealtimeEventKind::Insert { id: i1, contents: c1, query: q },
            RealtimeEventKind::Insert { id: i2, contents: c2, .. },
        ) => {
            concurrent_inserts_converge(
                v,
                q,
                c1,
                Some(first_actor),
                Some(i1.1),
                c2,
                Some(second_actor),
                Some(i2.1),
            );
        },
        (RealtimeEventKind::Insert { id, contents, query }, RealtimeEventKind::Delete { id: d }) => {
            insert_and_delete_commute(v, query, contents, Some(first_actor), Some(id.1), d);
        },
        (RealtimeEventKind::Delete { id: d }, RealtimeEventKind::Insert { id, contents, query }) => {
            insert_and_delete_commute(v, query, contents, Some(second_actor), Some(id.1), d);
        },
        (RealtimeEventKind::Delete { id: x }, RealtimeEventKind::Delete { id: y }) => {
            deletes_commute(v, x, y);
        },
        _ => {},
    }
}

/// Applies an edit that the client known as `actor_id` sent, and returns the
/// event to pass on to the other clients: an insert is applied as that
/// actor's, under the clock the client chose, and passed on renamed to that
/// actor; a delete is applied and passed on; the clock in the passed-on event
/// is the document's after the edit. Other kinds change nothing and are not
/// passed on.
pub fn apply_event(state: &mut Rga<char>, actor_id: ActorId, event: RealtimeEvent) -> (forwarded:
    Option<RealtimeEvent>)
    ensures
        final(state)@ == after_event(old(state)@, actor_id, event.kind),
        match event.kind {
            RealtimeEventKind::Insert { id, contents, query } => {
                &&& final(state)@ == old(state)@.after_insert(
                    query,
                    contents,
                    Some(actor_id),
                    Some(id.1),
                )
                &&& forwarded == Some(
                    RealtimeEvent {
                        actor: event.actor,
                        version: final(state)@.clock,
                        kind: RealtimeEventKind::Insert { id: (actor_id, id.1), contents, query },
                    },
                )
            },
            RealtimeEventKind::Delete { id } => {
                &&& final(state)@ == old(state)@.after_delete(id)
                &&& forwarded == Some(
                    RealtimeEvent {
                        actor: event.actor,
                        version: final(state)@.clock,
                        kind: RealtimeEventKind::Delete { id },
                    },
                )
            },
            _ => final(state)@ == old(state)@ && forwarded is None,
        },
{
    let actor = event.actor;
    match event.kind {
        RealtimeEventKind::Insert { id, contents, query } => {
            let id = (actor_id, id.1);
            state.insert(query, contents, Some(actor_id), Some(id.1));
            Some(
                RealtimeEvent {
                    actor,
                    version: state.clock(),
                    kind: RealtimeEventKind::Insert { id, contents, query },
                },
            )
        },
        RealtimeEventKind::Delete { id } => {
            state.delete(id);
            Some(
                RealtimeEvent {
                    actor,
                    version: state.clock(),
                    kind: RealtimeEventKind::Delete { id },
                },
            )
        },
        _ => None,
    }
}

} // verus!
