//! Verified decision logic of the Hotaru paper-trading services: text
//! rules on symbols and news, the Fear & Greed score, the position book
//! of the trading engine and its entry gates.

pub mod text;
pub mod number;
pub mod fng;
pub mod symbol_map;
pub mod engine;
pub mod market;
pub mod oracle;
pub mod feed;
pub mod news;
pub mod report;
pub mod endpoints;
