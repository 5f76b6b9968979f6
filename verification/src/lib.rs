//! A registry of service hosts with leases, and its endpoint-discovery view.
//!
//! Clients register where they listen under a service name; a registration
//! lives for the lease of the store and is gone, to every reader, once its
//! lease has run out. `storage` writes hosts to rows of a key-value backend
//! and reads them back, and decides what the store does around each backend
//! call. `v2xds` groups the live hosts of a service by locality for a proxy
//! that balances load. `server` routes requests and shapes replies.

pub mod attribute;
pub mod config;
pub mod decimal;
pub mod server;
pub mod storage;
pub mod text;
pub mod types;
pub mod v2xds;
