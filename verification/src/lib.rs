//! Verified core of a ping monitor: it keeps a table of monitored hosts read
//! from a Redis set, plans each ping round, turns ping outcomes into metric
//! updates, and validates its command-line settings.

pub mod text;
pub mod host;
pub mod table;
pub mod round;
pub mod updates;
pub mod prom;
pub mod flags;
pub mod net;
pub mod web;
