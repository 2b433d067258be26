//! Settings and request types of the cryobiobank metadata service, and its
//! streaming multipart uploader: a byte source is cut into numbered parts,
//! sent with bounded concurrency, and the remote session is completed or
//! aborted exactly once.
pub mod areas;
pub mod chunker;
pub mod config;
pub mod dna;
pub mod parts;
pub mod pool;
pub mod registry;
pub mod session;
pub mod submissions;
