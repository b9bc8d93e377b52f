//! A guild-scoped autoresponder rule store.
//!
//! Operators register (trigger, reply) pairs per guild. The store keeps an
//! in-memory cache of all rules that mirrors a durable backend: every
//! operation decides against the cache first, lets the caller perform the
//! durable write, and only then applies the change to the cache, so the cache
//! never holds a rule the backend refused.

pub mod cache;
pub mod laws;
pub mod model;
pub mod rule;
pub mod store;

pub use cache::RuleCache;
pub use rule::Rule;
pub use store::RuleStore;
pub use store::StoreError;
pub use store::WriteOutcome;
