//! Deployment configuration: where the server binds, where clients connect,
//! and which local directories uploads are read from and downloads written
//! to.  Loading it from disk is the bootstrap layer's job; the engine only
//! consumes the values.

use vstd::prelude::*;

verus! {

/// The four deployment settings.
pub struct Config {
    pub server_bind_address: String,
    pub server_connect_address: String,
    pub upload_directory: String,
    pub download_directory: String,
}

} // verus!
