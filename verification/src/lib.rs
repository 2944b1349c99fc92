//! Core logic of the Circles polling installation: RFID tag handling,
//! project lookups, session bookkeeping and export helpers.
pub mod database;
pub mod erasmus;
pub mod error;
pub mod export;
pub mod projects;
pub mod reader;
pub mod rfid_tags;
pub mod session;
pub mod tags;
pub mod text;
