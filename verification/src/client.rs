//! The client's decision points when it checks for an update: what it sends,
//! whether an answer asks for work, and where a file descriptor installs.
//! The socket traffic around these sits in the host program.

use vstd::prelude::*;
use crate::protocol::{InstallLocation, LocV, ReqV, Request, ResponseCode, UpdateResponse};

verus! {

/// An installer a client hands to the update check: it decides whether an
/// offered update is wanted, and writes one downloaded file to its place.
/// The host program implements it; its work is beyond what this library
/// states.
pub trait Installer {
    fn should_update(&self, response: &UpdateResponse) -> bool;

    fn install_file(&self, path: String, buf: Vec<u8>) -> Result<(), ()>;
}

/// The request a client sends to ask whether a newer version of `name`
/// than `version` is hosted, opting into the beta track by `allow_beta`.
pub fn build_update_request(name: &str, version: &str, allow_beta: bool) -> (r: Request)
    ensures
        r@ == (ReqV::Update {
            plugin_name: name@,
            plugin_version: version@,
            beta: Some(allow_beta),
            has_options: false,
        }),
{
    Request::Update {
        plugin_name: name.to_owned(),
        plugin_version: version.to_owned(),
        beta: Some(allow_beta),
        options: None,
    }
}

/// Whether an answer asks the client to fetch and install files.
pub fn wants_update(r: &UpdateResponse) -> (b: bool)
    ensures
        b == (r@.code == ResponseCode::Update),
{
    match r.code {
        ResponseCode::Update => true,
        _ => false,
    }
}

/// The path a downloaded file installs to, when the service named one the
/// client understands; an unknown location means the file cannot be applied.
pub fn install_path(loc: &InstallLocation) -> (r: Option<String>)
    ensures
        match r {
            Some(p) => loc@ == LocV::Path(p@),
            None => loc@ == LocV::Unknown,
        },
{
    match loc {
        InstallLocation::AbsolutePath(p) => Some(p.clone()),
        InstallLocation::Unknown => None,
    }
}

} // verus!
