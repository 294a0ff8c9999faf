//! A volatile peer-discovery registry. Callers announce "I am reachable at
//! domain:port" under their own network address; readers ask what has
//! announced itself under an address lately. The registry bounds the number
//! of distinct keys, deduplicates endpoints per key by (domain, port), and
//! expires entries lazily by a time-to-live measured in milliseconds.

pub mod entry;
pub mod laws;
pub mod registry;
pub mod store;

pub use crate::entry::AddressEntry;
pub use crate::entry::BotInstance;
pub use crate::registry::Registry;
