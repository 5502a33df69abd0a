//! Core of an hourly electricity-price automation service: turning rule
//! definitions and a per-hour price series into a concrete action plan,
//! executing that plan with bounded retries and missed-hour detection, and
//! speaking the signed publish/subscribe protocol of a vendor device cloud.

pub mod clock;
pub mod dto;
pub mod engine;
pub mod ha;
pub mod meross;
pub mod prices;
pub mod protocol;
pub mod provider;
pub mod retry;
pub mod rules;
pub mod schedule;
pub mod seq_facts;
pub mod text;
