//! Verified core of a small desktop network-speed widget: interface
//! throughput bookkeeping, per-process traffic counters, popup placement and
//! the tray menu's wording and command routing.

pub mod placement;
pub mod text;
pub mod netproc;
pub mod table;
pub mod rank;
pub mod monitor;
pub mod usage;
pub mod sessions;
pub mod tray;
pub mod procrates;
