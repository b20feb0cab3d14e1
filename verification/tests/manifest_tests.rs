use skyline_update::hosted_plugins::{validate_manifest, plugin_from_toml, PluginFile, TomlMetadata};
use skyline_update::protocol::InstallLocation;

fn one_file() -> Vec<PluginFile> {
    vec![PluginFile {
        install_location: InstallLocation::AbsolutePath("/target".to_owned()),
        filename: "payload.bin".to_owned(),
    }]
}

#[test]
fn bad_version_text_rejects_the_manifest() {
    let t = validate_manifest(
        "foo".to_owned(),
        "one point oh".to_owned(),
        None,
        one_file(),
        None,
        None,
    );
    assert!(t.is_none());
}

#[test]
fn valid_manifest_carries_its_fields() {
    let t = validate_manifest(
        "foo".to_owned(),
        "1.2.3".to_owned(),
        Some(true),
        one_file(),
        Some("3.0.0".to_owned()),
        None,
    )
    .expect("manifest is valid");
    assert_eq!(t.name, "foo");
    assert_eq!(t.version_text, "1.2.3");
    assert_eq!(t.version.major, 1);
    assert_eq!(t.beta, Some(true));
    assert_eq!(t.files.len(), 1);
    let sky = t.skyline_version.as_ref().expect("host version parsed");
    assert_eq!(sky.major, 3);
}

#[test]
fn bad_host_version_text_is_tolerated() {
    let t = validate_manifest(
        "foo".to_owned(),
        "1.0.0".to_owned(),
        None,
        one_file(),
        Some("whatever".to_owned()),
        None,
    )
    .expect("only the plugin version decides");
    assert!(t.skyline_version.is_none());
}

#[test]
fn defaults_apply_when_fields_are_absent() {
    let t = validate_manifest("foo".to_owned(), "1.0.0".to_owned(), None, one_file(), None, None)
        .expect("manifest is valid");
    let p = plugin_from_toml(t, vec![vec![1, 2]], None, None);
    assert_eq!(p.name, "foo");
    assert!(!p.beta);
    assert_eq!(p.skyline_version.major, 0);
    assert_eq!(p.skyline_version.minor, 0);
    assert_eq!(p.skyline_version.patch, 0);
    assert_eq!(p.files.len(), 1);
    assert_eq!(p.files[0].1, vec![1, 2]);
    assert!(p.metadata.name.is_none());
    assert!(p.metadata.changelog.is_none());
}

#[test]
fn metadata_block_keeps_its_loaded_blobs() {
    let t = validate_manifest(
        "foo".to_owned(),
        "1.0.0".to_owned(),
        Some(false),
        one_file(),
        None,
        Some(TomlMetadata {
            name: Some("Foo".to_owned()),
            images: Some(vec!["a.png".to_owned()]),
            description: Some("desc".to_owned()),
            changelog: Some("log.md".to_owned()),
        }),
    )
    .expect("manifest is valid");
    let p = plugin_from_toml(
        t,
        vec![vec![0]],
        Some(vec![vec![1, 1]]),
        Some("changed things".to_owned()),
    );
    assert_eq!(p.metadata.name, Some("Foo".to_owned()));
    assert_eq!(p.metadata.description, Some("desc".to_owned()));
    assert_eq!(p.metadata.images, Some(vec![vec![1, 1]]));
    assert_eq!(p.metadata.changelog, Some("changed things".to_owned()));
}
