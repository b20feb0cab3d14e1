use skyline_update::catalog::build_catalog;
use skyline_update::download::{lookup_file, u64_from_be_bytes};
use skyline_update::hosted_plugins::{Metadata, Plugin};
use skyline_update::protocol::InstallLocation;
use skyline_update::version::parse_version;

fn hosted(name: &str, version: &str, beta: bool, files: Vec<(&str, Vec<u8>)>) -> Plugin {
    Plugin {
        name: name.to_owned(),
        plugin_version: parse_version(version).expect("test version must parse"),
        version_text: version.to_owned(),
        files: files
            .into_iter()
            .map(|(loc, data)| (InstallLocation::AbsolutePath(loc.to_owned()), data))
            .collect(),
        skyline_version: parse_version("0.0.0").unwrap(),
        beta,
        metadata: Metadata::default(),
    }
}

#[test]
fn indices_walk_the_catalog_in_order() {
    let a = hosted("a", "1.0.0", false, vec![("/a1", vec![1]), ("/a2", vec![2, 2])]);
    let b = hosted("b", "2.0.0", false, vec![("/b1", vec![3, 3, 3])]);
    let (plugins, table) = build_catalog(vec![a, b]);
    assert_eq!(plugins.len(), 2);
    assert_eq!(table.len(), 3);
    assert_eq!(plugins[0].files[0].index, 0);
    assert_eq!(plugins[0].files[1].index, 1);
    assert_eq!(plugins[1].files[0].index, 2);
    assert_eq!(plugins[0].files[1].size, 2);
    assert_eq!(table[0], vec![1]);
    assert_eq!(table[1], vec![2, 2]);
    assert_eq!(table[2], vec![3, 3, 3]);
}

#[test]
fn rebuild_is_deterministic() {
    let make = || {
        vec![
            hosted("a", "1.0.0", false, vec![("/a1", vec![1])]),
            hosted("b", "2.0.0", true, vec![("/b1", vec![2]), ("/b2", vec![3])]),
        ]
    };
    let (p1, t1) = build_catalog(make());
    let (p2, t2) = build_catalog(make());
    assert_eq!(t1, t2);
    assert_eq!(p1.len(), p2.len());
    for (x, y) in p1.iter().zip(p2.iter()) {
        assert_eq!(x.name, y.name);
        assert_eq!(x.version_text, y.version_text);
        assert_eq!(x.files.len(), y.files.len());
        for (fx, fy) in x.files.iter().zip(y.files.iter()) {
            assert_eq!(fx.index, fy.index);
            assert_eq!(fx.size, fy.size);
        }
    }
}

#[test]
fn metadata_blobs_follow_the_files() {
    let mut p = hosted("a", "1.0.0", false, vec![("/a1", vec![1])]);
    p.metadata = Metadata {
        name: Some("A".to_owned()),
        images: Some(vec![vec![9], vec![8, 8]]),
        description: Some("desc".to_owned()),
        changelog: Some("news".to_owned()),
    };
    let (plugins, table) = build_catalog(vec![p]);
    assert_eq!(table.len(), 4);
    assert_eq!(plugins[0].images_index, 1);
    assert_eq!(plugins[0].image_count, 2);
    assert_eq!(plugins[0].changelog_index, Some(3));
    assert_eq!(table[1], vec![9]);
    assert_eq!(table[2], vec![8, 8]);
    assert_eq!(table[3], b"news".to_vec());
}

#[test]
fn valid_index_returns_identical_bytes() {
    let source = vec![0u8, 1, 2, 250, 255];
    let p = hosted("a", "1.0.0", false, vec![("/a1", source.clone())]);
    let (plugins, table) = build_catalog(vec![p]);
    let idx = plugins[0].files[0].index;
    let got = lookup_file(&table, idx).expect("index in range");
    assert_eq!(*got, source);
}

#[test]
fn out_of_range_index_yields_no_data() {
    let table: Vec<Vec<u8>> = vec![vec![1], vec![2], vec![3]];
    assert!(lookup_file(&table, 9999).is_none());
    assert!(lookup_file(&table, 3).is_none());
    assert!(lookup_file(&table, u64::MAX).is_none());
    assert!(lookup_file(&table, 2).is_some());
}

#[test]
fn download_index_read_is_big_endian() {
    assert_eq!(u64_from_be_bytes(&[0, 0, 0, 0, 0, 0, 0, 7]), 7);
    assert_eq!(u64_from_be_bytes(&[0, 0, 0, 0, 0, 0, 1, 0]), 256);
    assert_eq!(u64_from_be_bytes(&[0xff; 8]), u64::MAX);
    let n: u64 = 0x0123456789abcdef;
    assert_eq!(u64_from_be_bytes(&n.to_be_bytes()), n);
}
