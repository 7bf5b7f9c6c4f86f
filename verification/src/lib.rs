//! A replicated growable array (RGA): a sequence CRDT kept as a singly linked
//! list of units behind an empty root unit, with the operations that replicas
//! exchange (insert, delete, compact), a flat store form, and the realtime
//! event handling that applies edits from remote actors.

mod chain;
pub mod convergence;
pub mod events;
pub mod laws;
pub mod placement;
pub mod rga;
pub mod store;
pub mod text;

pub use events::{apply_event, RealtimeEvent, RealtimeEventKind};
pub use rga::{ActorClock, ActorId, Rga, RgaInsertQuery, RgaUnit, RgaUnitId};
pub use store::{RgaDeserializer, RgaSerializer, RgaStoreUnit};
