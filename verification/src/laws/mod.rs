//! What the library promises.
//!
//! Each law speaks of calls: of what a function is given and of what it gives back,
//! in the plain terms of the two. A law holds of every call, whatever happens in
//! between.

pub mod classification;
pub mod collisions;
pub mod discovery;
pub mod formats;
pub mod hooks;
pub mod managed;
pub mod manifests;
pub mod paths;
pub mod places;
pub mod planning;
pub mod recovery;
pub mod remotes;
pub mod running;
pub mod showing;
pub mod waiting;
pub mod walking;
pub mod writing;
