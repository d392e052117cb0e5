//! Verified core of a storage-pool management daemon: name and path
//! validation, encryption slot bookkeeping, an in-memory simulated engine of
//! pools and filesystems, parsing of the LUKS2 token that marks encrypted
//! devices, and the decisions made while identifying and claiming block
//! devices.

pub mod assoc;
pub mod units;
pub mod types;
pub mod errors;
pub mod keys;
pub mod names;
pub mod shared;
pub mod table;
pub mod outside;
pub mod integrity;
pub mod crypt;
pub mod event;
pub mod devlinks;
pub mod devices;
pub mod device;
pub mod backstore;
pub mod blockdevmgr;
pub mod operation;
pub mod metadata;
pub mod engine;
pub mod blockdev;
pub mod clevis;
pub mod jwe;
pub mod activate;
pub mod identify;
pub mod sim_engine;
