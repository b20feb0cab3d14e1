use skyline_update::codec::{
    decode_metadata, decode_request, decode_response, encode_metadata, encode_request,
    encode_response,
};
use skyline_update::protocol::{
    InstallLocation, PluginMetadata, Request, ResponseCode, UpdateFile, UpdateRequestOptions,
    UpdateResponse,
};

#[test]
fn request_update_round_trip() {
    let req = Request::Update {
        plugin_name: "my plugin\\with \n tricky naïve name".to_owned(),
        plugin_version: "1.2.3-beta.7".to_owned(),
        beta: Some(true),
        options: Some(UpdateRequestOptions::default()),
    };
    let line = encode_request(&req);
    assert!(!line.contains(&b'\n'));
    let back = decode_request(&line).expect("round trip must decode");
    match back {
        Request::Update { plugin_name, plugin_version, beta, options } => {
            assert_eq!(plugin_name, "my plugin\\with \n tricky naïve name");
            assert_eq!(plugin_version, "1.2.3-beta.7");
            assert_eq!(beta, Some(true));
            assert!(options.is_some());
        },
        _ => panic!("wrong request kind"),
    }
}

#[test]
fn request_update_round_trip_empty_fields() {
    let req = Request::Update {
        plugin_name: String::new(),
        plugin_version: String::new(),
        beta: None,
        options: None,
    };
    let line = encode_request(&req);
    let back = decode_request(&line).expect("round trip must decode");
    match back {
        Request::Update { plugin_name, plugin_version, beta, options } => {
            assert_eq!(plugin_name, "");
            assert_eq!(plugin_version, "");
            assert_eq!(beta, None);
            assert!(options.is_none());
        },
        _ => panic!("wrong request kind"),
    }
}

#[test]
fn request_metadata_round_trip() {
    let req = Request::Metadata { plugin_name: "foo".to_owned(), beta: Some(false) };
    let line = encode_request(&req);
    let back = decode_request(&line).expect("round trip must decode");
    match back {
        Request::Metadata { plugin_name, beta } => {
            assert_eq!(plugin_name, "foo");
            assert_eq!(beta, Some(false));
        },
        _ => panic!("wrong request kind"),
    }
}

#[test]
fn response_round_trip() {
    let resp = UpdateResponse {
        code: ResponseCode::Update,
        update_plugin: true,
        update_skyline: false,
        plugin_name: "foo".to_owned(),
        new_plugin_version: "2.0.0".to_owned(),
        new_skyline_version: Some("3.1.0".to_owned()),
        required_files: vec![
            UpdateFile {
                install_location: InstallLocation::AbsolutePath("/mnt/plug in.nro".to_owned()),
                download_index: 0,
                size: 17,
            },
            UpdateFile {
                install_location: InstallLocation::Unknown,
                download_index: u64::MAX,
                size: 0,
            },
        ],
    };
    let line = encode_response(&resp);
    assert!(!line.contains(&b'\n'));
    let back = decode_response(&line).expect("round trip must decode");
    assert!(matches!(back.code, ResponseCode::Update));
    assert!(back.update_plugin);
    assert!(!back.update_skyline);
    assert_eq!(back.plugin_name, "foo");
    assert_eq!(back.new_plugin_version, "2.0.0");
    assert_eq!(back.new_skyline_version, Some("3.1.0".to_owned()));
    assert_eq!(back.required_files.len(), 2);
    match &back.required_files[0].install_location {
        InstallLocation::AbsolutePath(p) => assert_eq!(p, "/mnt/plug in.nro"),
        _ => panic!("expected a path"),
    }
    assert_eq!(back.required_files[0].download_index, 0);
    assert_eq!(back.required_files[0].size, 17);
    assert!(matches!(back.required_files[1].install_location, InstallLocation::Unknown));
    assert_eq!(back.required_files[1].download_index, u64::MAX);
    assert_eq!(back.required_files[1].size, 0);
}

#[test]
fn blank_response_round_trip() {
    let resp = UpdateResponse::plugin_not_found();
    let line = encode_response(&resp);
    let back = decode_response(&line).expect("round trip must decode");
    assert!(matches!(back.code, ResponseCode::PluginNotFound));
    assert_eq!(back.required_files.len(), 0);
    assert_eq!(back.plugin_name, "");
}

#[test]
fn metadata_round_trip() {
    let m = PluginMetadata {
        name: Some("Näme with spaces".to_owned()),
        description: None,
        images_index: 4,
        image_count: 2,
        changelog_index: u64::MAX,
    };
    let line = encode_metadata(&m);
    let back = decode_metadata(&line).expect("round trip must decode");
    assert_eq!(back.name, Some("Näme with spaces".to_owned()));
    assert_eq!(back.description, None);
    assert_eq!(back.images_index, 4);
    assert_eq!(back.image_count, 2);
    assert_eq!(back.changelog_index, u64::MAX);
}

#[test]
fn unknown_install_location_decodes_to_placeholder() {
    // A location token the decoder does not recognize becomes Unknown
    // instead of failing the whole message.
    let line: Vec<u8> = b"r n 0 0 x y - 1 qqq 3 4".to_vec();
    let back = decode_response(&line).expect("unknown location is tolerated");
    assert_eq!(back.required_files.len(), 1);
    assert!(matches!(back.required_files[0].install_location, InstallLocation::Unknown));
    assert_eq!(back.required_files[0].download_index, 3);
    assert_eq!(back.required_files[0].size, 4);
}

#[test]
fn garbage_does_not_decode() {
    assert!(decode_request(&b"complete garbage".to_vec()).is_none());
    assert!(decode_request(&Vec::new()).is_none());
    assert!(decode_request(&b"{\"Update\":{}}".to_vec()).is_none());
    assert!(decode_response(&b"u foo 1.0.0 - -".to_vec()).is_none());
    // A file count that disagrees with the token count is rejected.
    assert!(decode_response(&b"r n 0 0 x y - 2 qqq 3 4".to_vec()).is_none());
    // An unknown response code is rejected, not guessed at.
    assert!(decode_response(&b"r z 0 0 x y - 0".to_vec()).is_none());
}
