//! What decides over the archive. The rows themselves are in an SQLite file;
//! these modules say what is written, what is removed and what is reported.

pub mod inbox;
pub mod parent;
pub mod rebuild;
pub mod reconcile;
pub mod replies;
pub mod row;
pub mod sync;
