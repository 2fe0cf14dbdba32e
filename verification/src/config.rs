//! Configuration passed in once at process start.  The core holds no
//! process-wide state: whoever drives the library constructs these
//! values and hands them to each component.

use vstd::prelude::*;

verus! {

/// The identifiers of the remote storage application: its display
/// name, its client id, and the file name of the private key that
/// protects the stored token.
#[derive(Debug)]
pub struct DropboxApiConfig {
    /// The application name.
    pub dropbox_app_name: String,
    /// The client id, also called the app name by the remote API.
    pub client_id: String,
    /// File name of the private key that encrypts the stored token.
    pub dropbox_api_private_key_file_name: String,
}

impl DropboxApiConfig {
    /// Bundles the three identifiers.
    pub fn new(
        dropbox_app_name: String,
        client_id: String,
        dropbox_api_private_key_file_name: String,
    ) -> (r: DropboxApiConfig)
        ensures
            r.dropbox_app_name == dropbox_app_name,
            r.client_id == client_id,
            r.dropbox_api_private_key_file_name == dropbox_api_private_key_file_name,
    {
        DropboxApiConfig { dropbox_app_name, client_id, dropbox_api_private_key_file_name }
    }
}

} // verus!
