//! A terminal chat client's core: the record codec, the log file's framing, the
//! view of the history, the line editor and the decisions of the event loop.
pub mod record;
pub mod store;
pub mod display;
pub mod editor;
pub mod session;
