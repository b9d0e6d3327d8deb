//! Export limiting for SMA inverters, driven by DSMR P1 telegrams: everything
//! that the daemon decides and computes.

pub mod binary64;
pub mod config;
pub mod control;
pub mod crc;
pub mod daemon;
pub mod dsmr;
pub mod e20;
pub mod health;
pub mod modbus_client;
pub mod natural;
pub mod selfcheck;
pub mod state;
pub mod text;
