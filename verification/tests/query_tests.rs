use skyline_update::catalog::build_catalog;
use skyline_update::client::{build_update_request, install_path, wants_update};
use skyline_update::codec::{decode_metadata, decode_response, encode_request};
use skyline_update::hosted_plugins::{Metadata, Plugin};
use skyline_update::protocol::{InstallLocation, Request, ResponseCode};
use skyline_update::query::{handle_query_line, resolve_metadata, resolve_update};
use skyline_update::version::parse_version;

fn hosted(name: &str, version: &str, beta: bool, files: Vec<(&str, Vec<u8>)>) -> Plugin {
    Plugin {
        name: name.to_owned(),
        plugin_version: parse_version(version).expect("test version must parse"),
        version_text: version.to_owned(),
        files: files
            .into_iter()
            .map(|(loc, data)| (InstallLocation::AbsolutePath(loc.to_owned()), data))
            .collect(),
        skyline_version: parse_version("0.0.0").unwrap(),
        beta,
        metadata: Metadata::default(),
    }
}

#[test]
fn stable_update_is_offered_below_max() {
    // Package "foo" stable v1.0.0, no beta track.
    let (plugins, _table) = build_catalog(vec![
        hosted("foo", "1.0.0", false, vec![("/f1", vec![1]), ("/f2", vec![2])]),
    ]);
    let r = resolve_update(&plugins, &"foo".to_owned(), &"0.9.0".to_owned(), false);
    assert!(matches!(r.code, ResponseCode::Update));
    assert!(r.update_plugin);
    assert!(!r.update_skyline);
    assert_eq!(r.plugin_name, "foo");
    assert_eq!(r.new_plugin_version, "1.0.0");
    assert_eq!(r.required_files.len(), 2);
    assert_eq!(r.required_files[0].download_index, 0);
    assert_eq!(r.required_files[1].download_index, 1);
    assert!(wants_update(&r));
}

#[test]
fn no_update_at_or_above_max() {
    let (plugins, _table) =
        build_catalog(vec![hosted("foo", "1.0.0", false, vec![("/f1", vec![1])])]);
    let same = resolve_update(&plugins, &"foo".to_owned(), &"1.0.0".to_owned(), false);
    assert!(matches!(same.code, ResponseCode::NoUpdate));
    assert!(!wants_update(&same));
    let above = resolve_update(&plugins, &"foo".to_owned(), &"1.0.1".to_owned(), false);
    assert!(matches!(above.code, ResponseCode::NoUpdate));
}

#[test]
fn beta_track_needs_opt_in() {
    // Package "foo" has stable v1.0.0 and beta v1.1.0-beta.
    let (plugins, _table) = build_catalog(vec![
        hosted("foo", "1.0.0", false, vec![("/s", vec![1])]),
        hosted("foo", "1.1.0-beta", true, vec![("/b", vec![2])]),
    ]);
    let stable = resolve_update(&plugins, &"foo".to_owned(), &"1.0.5".to_owned(), false);
    assert!(matches!(stable.code, ResponseCode::NoUpdate));
    let beta = resolve_update(&plugins, &"foo".to_owned(), &"1.0.5".to_owned(), true);
    assert!(matches!(beta.code, ResponseCode::Update));
    assert_eq!(beta.new_plugin_version, "1.1.0-beta");
}

#[test]
fn unknown_name_is_not_found_whatever_the_version_text() {
    let (plugins, _table) =
        build_catalog(vec![hosted("foo", "1.0.0", false, vec![("/f", vec![1])])]);
    let r = resolve_update(&plugins, &"bar".to_owned(), &"1.0.0".to_owned(), false);
    assert!(matches!(r.code, ResponseCode::PluginNotFound));
    // Even an unparsable version text: the name decides first.
    let r2 = resolve_update(&plugins, &"bar".to_owned(), &"not a version".to_owned(), true);
    assert!(matches!(r2.code, ResponseCode::PluginNotFound));
}

#[test]
fn unparsable_client_version_is_invalid_request() {
    let (plugins, _table) =
        build_catalog(vec![hosted("foo", "1.0.0", false, vec![("/f", vec![1])])]);
    let r = resolve_update(&plugins, &"foo".to_owned(), &"not a version".to_owned(), false);
    assert!(matches!(r.code, ResponseCode::InvalidRequest));
    let r2 = resolve_update(&plugins, &"foo".to_owned(), &String::new(), false);
    assert!(matches!(r2.code, ResponseCode::InvalidRequest));
}

#[test]
fn equal_versions_pick_the_latest_loaded() {
    let (plugins, _table) = build_catalog(vec![
        hosted("foo", "1.0.0", false, vec![("/first", vec![1])]),
        hosted("foo", "1.0.0", false, vec![("/second", vec![2])]),
    ]);
    let r = resolve_update(&plugins, &"foo".to_owned(), &"0.1.0".to_owned(), false);
    assert!(matches!(r.code, ResponseCode::Update));
    assert_eq!(r.required_files.len(), 1);
    match &r.required_files[0].install_location {
        InstallLocation::AbsolutePath(p) => assert_eq!(p, "/second"),
        _ => panic!("expected a path"),
    }
}

#[test]
fn query_line_round_trip_through_the_service() {
    let (plugins, _table) =
        build_catalog(vec![hosted("foo", "1.0.0", false, vec![("/f", vec![1, 2, 3])])]);
    let req = build_update_request("foo", "0.9.0", false);
    match &req {
        Request::Update { plugin_name, plugin_version, beta, options } => {
            assert_eq!(plugin_name, "foo");
            assert_eq!(plugin_version, "0.9.0");
            assert_eq!(*beta, Some(false));
            assert!(options.is_none());
        },
        _ => panic!("wrong request kind"),
    }
    let line = encode_request(&req);
    let out = handle_query_line(&plugins, &line);
    let resp = decode_response(&out).expect("the service answers one response line");
    assert!(matches!(resp.code, ResponseCode::Update));
    assert_eq!(resp.new_plugin_version, "1.0.0");
    assert_eq!(resp.required_files.len(), 1);
    assert_eq!(resp.required_files[0].size, 3);
    assert_eq!(
        install_path(&resp.required_files[0].install_location),
        Some("/f".to_owned())
    );
}

#[test]
fn unparsable_payload_answers_invalid_request() {
    let (plugins, _table) =
        build_catalog(vec![hosted("foo", "1.0.0", false, vec![("/f", vec![1])])]);
    let out = handle_query_line(&plugins, &b"complete garbage".to_vec());
    let resp = decode_response(&out).expect("the service answers one response line");
    assert!(matches!(resp.code, ResponseCode::InvalidRequest));
}

#[test]
fn metadata_query_answers_display_metadata() {
    let mut p = hosted("foo", "1.0.0", false, vec![("/f", vec![1])]);
    p.metadata = Metadata {
        name: Some("Foo".to_owned()),
        images: Some(vec![vec![7]]),
        description: Some("a plugin".to_owned()),
        changelog: None,
    };
    let (plugins, _table) = build_catalog(vec![p]);
    let m = resolve_metadata(&plugins, &"foo".to_owned(), false).expect("foo is hosted");
    assert_eq!(m.name, Some("Foo".to_owned()));
    assert_eq!(m.description, Some("a plugin".to_owned()));
    assert_eq!(m.images_index, 1);
    assert_eq!(m.image_count, 1);
    assert_eq!(m.changelog_index, u64::MAX);
    assert!(resolve_metadata(&plugins, &"bar".to_owned(), false).is_none());

    let line = encode_request(&Request::Metadata { plugin_name: "foo".to_owned(), beta: None });
    let out = handle_query_line(&plugins, &line);
    let wire = decode_metadata(&out).expect("metadata answer line");
    assert_eq!(wire.name, Some("Foo".to_owned()));
    assert_eq!(wire.image_count, 1);
}

#[test]
fn a_rebuilt_catalog_answers_with_the_new_data() {
    let (old_plugins, old_table) =
        build_catalog(vec![hosted("foo", "1.0.0", false, vec![("/f", vec![1])])]);
    // The watcher saw a change: the package directory now holds v2.0.0.
    let (new_plugins, new_table) =
        build_catalog(vec![hosted("foo", "2.0.0", false, vec![("/f", vec![9, 9])])]);
    let r_old = resolve_update(&old_plugins, &"foo".to_owned(), &"1.0.0".to_owned(), false);
    assert!(matches!(r_old.code, ResponseCode::NoUpdate));
    let r_new = resolve_update(&new_plugins, &"foo".to_owned(), &"1.0.0".to_owned(), false);
    assert!(matches!(r_new.code, ResponseCode::Update));
    assert_eq!(r_new.new_plugin_version, "2.0.0");
    // Each snapshot's indices resolve against its own table only.
    assert_eq!(old_table[0], vec![1]);
    assert_eq!(new_table[0], vec![9, 9]);
}
