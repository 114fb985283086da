//! The verified core of emucap's emulator bridges: number and predicate parsing, Flycast
//! launch planning and config editing, GDB remote protocol framing, the PC-98 bridge's
//! breakpoint table and event polling, and the experiment tracker's current run.

pub mod text;
pub mod numparse;
pub mod number_laws;
pub mod commands;
pub mod ini;
pub mod ini_laws;
pub mod flycast;
pub mod rsp;
pub mod transport;
pub mod fmt;
pub mod bridge;
pub mod temporal;
pub mod track;
