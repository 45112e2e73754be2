//! A change-tracking layer in front of a slot-indexed value store.
//!
//! Every stored value is addressed by a small unsigned integer slot id. For
//! each id the layer remembers whether the value there was inserted, modified
//! or removed since the last reset, and exposes that information both as a
//! membership set of currently dirty ids and as an ordered log of
//! `(id, Change)` events that consumers can replay once per epoch.

pub mod change;
pub mod dirty;
pub mod events;
pub mod slots;
pub mod storage;
pub mod tracking;

pub use change::Change;
pub use dirty::MAX_SLOT_ID;
pub use events::ChangeEvents;
pub use storage::Storage;
pub use tracking::TrackedStorage;
