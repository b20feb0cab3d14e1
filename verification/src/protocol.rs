//! Wire message types of the two-port update protocol: requests and
//! responses of the query port, and the descriptors a response uses to point
//! a client at files on the download port.
//!
//! Each executable type has a ghost view (`@`) over character sequences, and
//! the contracts of the codec and of query resolution are stated over those
//! views.

use vstd::prelude::*;

verus! {

/// Where an installed file belongs on the client.
///
/// The wire form of this enum is open-ended: an encoding the decoder does not
/// recognize becomes `Unknown` rather than a decode failure, so newer peers
/// do not break older ones.
#[non_exhaustive]
pub enum InstallLocation {
    AbsolutePath(String),
    Unknown,
}

/// Ghost view of an [`InstallLocation`].
pub ghost enum LocV {
    Path(Seq<char>),
    Unknown,
}

impl View for InstallLocation {
    type V = LocV;

    open spec fn view(&self) -> LocV {
        match self {
            InstallLocation::AbsolutePath(p) => LocV::Path(p@),
            InstallLocation::Unknown => LocV::Unknown,
        }
    }
}

impl InstallLocation {
    /// A copy with the same view.
    pub fn duplicate(&self) -> (r: InstallLocation)
        ensures
            r@ == self@,
    {
        match self {
            InstallLocation::AbsolutePath(p) => InstallLocation::AbsolutePath(p.clone()),
            InstallLocation::Unknown => InstallLocation::Unknown,
        }
    }
}

/// One file a client must fetch to apply an update: where to install it,
/// which download index addresses it, and how many bytes it holds.
pub struct UpdateFile {
    pub install_location: InstallLocation,
    pub download_index: u64,
    pub size: usize,
}

/// Ghost view of an [`UpdateFile`].
pub ghost struct FileV {
    pub install_location: LocV,
    pub download_index: u64,
    pub size: usize,
}

impl View for UpdateFile {
    type V = FileV;

    open spec fn view(&self) -> FileV {
        FileV {
            install_location: self.install_location@,
            download_index: self.download_index,
            size: self.size,
        }
    }
}

/// Outcome category of a query. The set is open-ended on the wire; a decoder
/// meeting a code it does not know rejects the whole message.
#[non_exhaustive]
#[derive(PartialEq, Eq, Structural, Clone, Copy, Debug)]
pub enum ResponseCode {
    NoUpdate,
    Update,
    PluginNotFound,
    InvalidRequest,
}

impl Default for ResponseCode {
    fn default() -> (r: Self)
        ensures
            r == ResponseCode::NoUpdate,
    {
        ResponseCode::NoUpdate
    }
}

/// Answer to an update query.
pub struct UpdateResponse {
    pub code: ResponseCode,
    pub update_plugin: bool,
    pub update_skyline: bool,
    pub plugin_name: String,
    pub new_plugin_version: String,
    pub new_skyline_version: Option<String>,
    pub required_files: Vec<UpdateFile>,
}

/// Ghost view of an [`UpdateResponse`].
pub ghost struct RespV {
    pub code: ResponseCode,
    pub update_plugin: bool,
    pub update_skyline: bool,
    pub plugin_name: Seq<char>,
    pub new_plugin_version: Seq<char>,
    pub new_skyline_version: Option<Seq<char>>,
    pub required_files: Seq<FileV>,
}

impl View for UpdateResponse {
    type V = RespV;

    open spec fn view(&self) -> RespV {
        RespV {
            code: self.code,
            update_plugin: self.update_plugin,
            update_skyline: self.update_skyline,
            plugin_name: self.plugin_name@,
            new_plugin_version: self.new_plugin_version@,
            new_skyline_version: match self.new_skyline_version {
                Some(s) => Some(s@),
                None => None,
            },
            required_files: self.required_files@.map_values(|f: UpdateFile| f@),
        }
    }
}

/// The view of a response that carries only a code and empty defaults.
pub open spec fn blank_resp(code: ResponseCode) -> RespV {
    RespV {
        code,
        update_plugin: false,
        update_skyline: false,
        plugin_name: Seq::empty(),
        new_plugin_version: Seq::empty(),
        new_skyline_version: None,
        required_files: Seq::empty(),
    }
}

impl Default for UpdateResponse {
    fn default() -> (r: Self)
        ensures
            r@ == blank_resp(ResponseCode::NoUpdate),
    {
        let r = UpdateResponse {
            code: ResponseCode::NoUpdate,
            update_plugin: false,
            update_skyline: false,
            plugin_name: String::new(),
            new_plugin_version: String::new(),
            new_skyline_version: None,
            required_files: Vec::new(),
        };
        proof {
            assert(r@.required_files =~= Seq::<FileV>::empty());
            assert(r@ =~= blank_resp(ResponseCode::NoUpdate));
        }
        r
    }
}

impl UpdateResponse {
    /// The answer when the client already runs the newest eligible version.
    pub fn no_update() -> (r: Self)
        ensures
            r@ == blank_resp(ResponseCode::NoUpdate),
    {
        Default::default()
    }

    /// The answer when no eligible version track matches the asked name.
    pub fn plugin_not_found() -> (r: Self)
        ensures
            r@ == blank_resp(ResponseCode::PluginNotFound),
    {
        let mut r: UpdateResponse = Default::default();
        r.code = ResponseCode::PluginNotFound;
        proof {
            assert(r@ =~= blank_resp(ResponseCode::PluginNotFound));
        }
        r
    }

    /// The answer to a payload that does not decode, or carries a version
    /// string that does not parse.
    pub fn invalid_request() -> (r: Self)
        ensures
            r@ == blank_resp(ResponseCode::InvalidRequest),
    {
        let mut r: UpdateResponse = Default::default();
        r.code = ResponseCode::InvalidRequest;
        proof {
            assert(r@ =~= blank_resp(ResponseCode::InvalidRequest));
        }
        r
    }
}

/// Display metadata of one plugin, answered to a metadata query. The indices
/// address the download table of the same catalog snapshot; an absent blob is
/// signalled by `u64::MAX`, which no table of this service ever reaches.
pub struct PluginMetadata {
    pub name: Option<String>,
    pub description: Option<String>,
    pub images_index: u64,
    pub image_count: u64,
    pub changelog_index: u64,
}

/// Ghost view of a [`PluginMetadata`].
pub ghost struct MetaV {
    pub name: Option<Seq<char>>,
    pub description: Option<Seq<char>>,
    pub images_index: u64,
    pub image_count: u64,
    pub changelog_index: u64,
}

impl View for PluginMetadata {
    type V = MetaV;

    open spec fn view(&self) -> MetaV {
        MetaV {
            name: match self.name {
                Some(s) => Some(s@),
                None => None,
            },
            description: match self.description {
                Some(s) => Some(s@),
                None => None,
            },
            images_index: self.images_index,
            image_count: self.image_count,
            changelog_index: self.changelog_index,
        }
    }
}

/// Extension point of an update request; carries nothing yet.
#[non_exhaustive]
pub struct UpdateRequestOptions {}

impl Default for UpdateRequestOptions {
    fn default() -> (r: Self)
        ensures
            r == (UpdateRequestOptions {}),
    {
        UpdateRequestOptions {}
    }
}

/// A query-port request.
#[non_exhaustive]
pub enum Request {
    Update {
        plugin_name: String,
        plugin_version: String,
        beta: Option<bool>,
        options: Option<UpdateRequestOptions>,
    },
    Metadata {
        plugin_name: String,
        beta: Option<bool>,
    },
}

/// Ghost view of a [`Request`].
pub ghost enum ReqV {
    Update {
        plugin_name: Seq<char>,
        plugin_version: Seq<char>,
        beta: Option<bool>,
        has_options: bool,
    },
    Metadata {
        plugin_name: Seq<char>,
        beta: Option<bool>,
    },
}

impl View for Request {
    type V = ReqV;

    open spec fn view(&self) -> ReqV {
        match self {
            Request::Update { plugin_name, plugin_version, beta, options } => ReqV::Update {
                plugin_name: plugin_name@,
                plugin_version: plugin_version@,
                beta: *beta,
                has_options: options is Some,
            },
            Request::Metadata { plugin_name, beta } => ReqV::Metadata {
                plugin_name: plugin_name@,
                beta: *beta,
            },
        }
    }
}

/// A version triple a client may report about itself.
pub struct VersionInfo {
    pub plugin_name: String,
    pub plugin_version: String,
    pub skyline_version: Option<String>,
}

} // verus!
