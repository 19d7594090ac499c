//! Delta decoder for packet entities and decoder for game events of recorded
//! game sessions, with the schema tables they read.
pub mod analyser;
pub mod bits;
pub mod gameevent;
pub mod packetentities;
pub mod sendprop;
pub mod state;
