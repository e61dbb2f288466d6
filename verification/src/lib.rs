//! Verified core of the Capybara TCP-migration network stack: wire formats of the
//! IPv4 and TCPMig headers, fragment reassembly, the per-connection migration protocol,
//! the windowed min/max filter and delivery-rate estimator used by BBR, receive-queue
//! statistics and the choice of connections to migrate, the queue-descriptor table and
//! interval timing.

pub mod addr;
pub mod byte_order;
pub mod stage;

pub mod buffer;
pub mod ipv4;
pub mod tcpmig_header;
pub mod defragmenter;
pub mod migration_header;
pub mod minmax;
pub mod delivery_rate;
pub mod tcp_stats;
pub mod tcpmig_stats;
pub mod queue;
pub mod state;
pub mod active_migration;
pub mod profiler;
pub mod migration_table;
pub mod socket_table;
