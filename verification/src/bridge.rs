//! Bridge-side logic: BLE and mesh ingest, device registry, Grocy sync decisions.
pub mod ble;
pub mod device;
pub mod mesh;
pub mod config;
pub mod grocy;
pub mod grpc;
