//! The request-handling core of a small HTTP origin server.
//!
//! The server serves static files from a root folder, lists directories, and
//! runs the files of the `scripts` directory as child processes whose output
//! becomes the response. This library holds every decision of that pipeline as
//! a function from plain values to plain values: parsing a request, guarding
//! and classifying the requested path, choosing what to do, building a
//! script's environment, reading a script's output, writing the response and
//! the log line. Sockets, the file system and processes stay with the caller.
//!
//! Every byte string is modelled as a `Seq<u8>`; every function states its
//! result as a function of its arguments.

pub mod bytes;
pub mod decimal;
pub mod guard;
pub mod laws;
pub mod listing;
pub mod mime;
pub mod order;
pub mod query;
pub mod request;
pub mod response;
pub mod router;
pub mod script;
pub mod table;
