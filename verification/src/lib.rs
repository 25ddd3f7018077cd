//! An in-process publish/subscribe event bus.
//!
//! Components emit typed, immutable domain events; interested parties
//! register to receive them either by exact event kind or through a wildcard
//! subscription that matches every kind. The bus keeps, for each kind, the
//! recipients in subscription order, and on publish routes the event first to
//! every wildcard recipient and then to every recipient of the event's kind.
//! Delivery itself is fire-and-forget and lives outside this crate; the bus
//! here owns the registry and computes, for each published event, the ordered
//! delivery plan.

pub mod bus;
pub mod delivery;
pub mod event;
pub mod listener;

pub use bus::EventBus;
pub use bus::RecipientId;
pub use event::EnclaveEvent;
pub use event::EventView;
pub use listener::Listener;
