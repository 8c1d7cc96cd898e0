//! Byte-level codecs of the control and game packets that surround the
//! reliability core.  Application payloads travel through the core as
//! opaque bytes; these are the packets the server itself reads or
//! writes at either end.

pub mod command;
pub mod control;
pub mod game;
pub mod header;
pub mod login;
