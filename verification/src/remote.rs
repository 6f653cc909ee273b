//! The address of the remote snapshot store.
//!
//! Uploading and downloading the snapshot over the wire is part of the
//! unverified surroundings; here lives only the connection record those
//! routines use.

use vstd::prelude::*;

use crate::text::{ascii_lowercase, lower_char};

verus! {

/// Where the per-build snapshot is persisted between process runs.
#[derive(Debug, Clone)]
pub struct RemoteStorage {
    pub url: String,
    pub user: String,
    pub password: String,
    pub file_path: String,
}

impl RemoteStorage {
    /// Records the store's address; the file path is lowercased.
    pub fn new(url: &str, user: &str, password: &str, file_path: &str) -> (r: Self)
        ensures
            r.url@ == url@,
            r.user@ == user@,
            r.password@ == password@,
            r.file_path@ == file_path@.map_values(|c: char| lower_char(c)),
    {
        RemoteStorage {
            url: url.to_owned(),
            user: user.to_owned(),
            password: password.to_owned(),
            file_path: ascii_lowercase(file_path),
        }
    }
}

} // verus!
