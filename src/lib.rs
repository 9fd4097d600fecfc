//! Date/time literals: a strict grammar for quoted literals, a permissive one for
//! bare strings, a canonical text form, and the elapsed time between two instants.
//! Every instant is held in UTC as seconds and nanoseconds since 1970-01-01.
pub mod calendar;
pub mod context;
pub mod datetime;
pub mod field;
pub mod grammar;
pub mod laws;
pub mod text;
