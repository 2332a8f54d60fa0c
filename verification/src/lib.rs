//! The logic of a read-only Kindle library backend: the Amazon session, the
//! library and reading state, cached highlights, and the line protocol that
//! clients speak. Everything here is plain computation; the program around it
//! owns the network, the disk, the clock and the socket.

pub mod amazon;
pub mod credentials;
pub mod encoding;
pub mod enrich;
pub mod fetch;
pub mod highlights;
pub mod json;
pub mod keyed;
pub mod lines;
pub mod models;
pub mod passages;
pub mod paths;
pub mod probe;
pub mod reading;
pub mod recent;
pub mod refresh;
pub mod requests;
pub mod secrets;
pub mod socket;
pub mod state;
pub mod text;
pub mod wire;

