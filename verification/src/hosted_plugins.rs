//! Package manifests as the service loads them from the plugin directory.
//!
//! The host reads a package's manifest file and the files it references and
//! hands their plain contents here; this module validates the version texts,
//! applies the documented defaults, and assembles the loaded descriptor. A
//! manifest whose version text does not parse is rejected, which the caller
//! treats as "skip this package", never as a fatal error.

use vstd::prelude::*;
use crate::protocol::InstallLocation;
use crate::version::{parse_version, parsed_version, Version, VersionV};

verus! {

/// One file a package manifest lists: where it installs, and its file name
/// (a relative name is resolved against the package directory by the host).
pub struct PluginFile {
    pub install_location: InstallLocation,
    pub filename: String,
}

/// The optional display-metadata block of a manifest, before the referenced
/// blobs are loaded: images and the changelog are still file names.
pub struct TomlMetadata {
    pub name: Option<String>,
    pub images: Option<Vec<String>>,
    pub description: Option<String>,
    pub changelog: Option<String>,
}

/// A validated manifest: version texts parsed, everything else as written.
pub struct PluginToml {
    pub version: Version,
    pub version_text: String,
    pub name: String,
    pub beta: Option<bool>,
    pub files: Vec<PluginFile>,
    pub skyline_version: Option<Version>,
    pub metadata: Option<TomlMetadata>,
}

/// Validate a manifest's plain fields. Fails exactly when the plugin version
/// text is no semantic version; a host-version text that does not parse is
/// tolerated and dropped, as an absent one is.
pub fn validate_manifest(
    name: String,
    version_text: String,
    beta: Option<bool>,
    files: Vec<PluginFile>,
    skyline_version_text: Option<String>,
    metadata: Option<TomlMetadata>,
) -> (r: Option<PluginToml>)
    ensures
        match r {
            Some(t) => {
                &&& parsed_version(version_text@) == Some(t.version@)
                &&& t.version_text == version_text
                &&& t.name == name
                &&& t.beta == beta
                &&& t.files == files
                &&& t.metadata == metadata
                &&& match skyline_version_text {
                    None => t.skyline_version is None,
                    Some(s) => match t.skyline_version {
                        Some(v) => parsed_version(s@) == Some(v@),
                        None => parsed_version(s@) is None,
                    },
                }
            },
            None => parsed_version(version_text@) is None,
        },
{
    let version = match parse_version(version_text.as_str()) {
        Some(v) => v,
        None => {
            return None;
        },
    };
    let skyline_version = match &skyline_version_text {
        Some(s) => parse_version(s.as_str()),
        None => None,
    };
    Some(PluginToml { version, version_text, name, beta, files, skyline_version, metadata })
}

/// Display metadata with its blobs loaded: image bytes, changelog text.
pub struct Metadata {
    pub name: Option<String>,
    pub images: Option<Vec<Vec<u8>>>,
    pub description: Option<String>,
    pub changelog: Option<String>,
}

impl Default for Metadata {
    fn default() -> (r: Self)
        ensures
            r.name is None,
            r.images is None,
            r.description is None,
            r.changelog is None,
    {
        Metadata { name: None, images: None, description: None, changelog: None }
    }
}

/// A fully loaded package: parsed versions, file payloads in manifest order,
/// defaults applied (`beta` false, host version `0.0.0` when absent).
pub struct Plugin {
    pub name: String,
    pub plugin_version: Version,
    pub version_text: String,
    pub files: Vec<(InstallLocation, Vec<u8>)>,
    pub skyline_version: Version,
    pub beta: bool,
    pub metadata: Metadata,
}

/// The version every absent host-version requirement defaults to.
pub open spec fn zero_version() -> VersionV {
    VersionV { major: 0, minor: 0, patch: 0, pre: Seq::empty() }
}

/// Assemble the loaded descriptor from a validated manifest and the loaded
/// contents: one payload per listed file, in order, plus the metadata blobs.
pub fn plugin_from_toml(
    t: PluginToml,
    payloads: Vec<Vec<u8>>,
    images: Option<Vec<Vec<u8>>>,
    changelog: Option<String>,
) -> (r: Plugin)
    requires
        payloads@.len() == t.files@.len(),
    ensures
        r.name == t.name,
        r.plugin_version == t.version,
        r.version_text == t.version_text,
        r.beta == (match t.beta {
            Some(b) => b,
            None => false,
        }),
        match t.skyline_version {
            Some(v) => r.skyline_version == v,
            None => r.skyline_version@ == zero_version(),
        },
        r.files@.len() == t.files@.len(),
        forall|i: int|
            0 <= i < r.files@.len() ==> (#[trigger] r.files@[i]).0 == t.files@[i].install_location
                && r.files@[i].1 == payloads@[i],
        match t.metadata {
            None => r.metadata.name is None && r.metadata.images is None
                && r.metadata.description is None && r.metadata.changelog is None,
            Some(tm) => r.metadata.name == tm.name && r.metadata.description == tm.description
                && r.metadata.images == images && r.metadata.changelog == changelog,
        },
{
    let PluginToml { version, version_text, name, beta, files, skyline_version, metadata } = t;
    let ghost files0 = files@;
    let ghost payloads0 = payloads@;
    let mut tf = files;
    let mut pl = payloads;
    let mut out: Vec<(InstallLocation, Vec<u8>)> = Vec::new();
    while tf.len() > 0
        invariant
            out@.len() + tf@.len() == files0.len(),
            pl@.len() == tf@.len(),
            tf@ == files0.skip(out@.len() as int),
            pl@ == payloads0.skip(out@.len() as int),
            payloads0.len() == files0.len(),
            forall|i: int|
                0 <= i < out@.len() ==> (#[trigger] out@[i]).0 == files0[i].install_location
                    && out@[i].1 == payloads0[i],
        decreases tf@.len(),
    {
        let ghost done = out@.len() as int;
        let f = tf.remove(0);
        let p = pl.remove(0);
        proof {
            assert(f == files0[done]);
            assert(p == payloads0[done]);
            assert(tf@ =~= files0.skip(done + 1));
            assert(pl@ =~= payloads0.skip(done + 1));
        }
        let PluginFile { install_location, filename: _ } = f;
        out.push((install_location, p));
    }
    let loaded = match metadata {
        None => Metadata { name: None, images: None, description: None, changelog: None },
        Some(tm) => Metadata {
            name: tm.name,
            images,
            description: tm.description,
            changelog,
        },
    };
    Plugin {
        name,
        plugin_version: version,
        version_text,
        files: out,
        skyline_version: match skyline_version {
            Some(v) => v,
            None => {
                let z = Version { major: 0, minor: 0, patch: 0, pre: Vec::new() };
                proof {
                    assert(z@.pre =~= Seq::<Seq<u8>>::empty());
                    assert(z@ =~~= zero_version());
                }
                z
            },
        },
        beta: match beta {
            Some(b) => b,
            None => false,
        },
        metadata: loaded,
    }
}

} // verus!
