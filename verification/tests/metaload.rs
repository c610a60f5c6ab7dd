use anise::errors::MetaAlmanacError;
use anise::metaload::{MetaAlmanac, MetaFile};

#[test]
fn abs_paths() {
    let mut window_path = MetaFile { uri: "C:\\Users\\me\\meta.dhall".to_string(), crc32: None };
    assert!(matches!(window_path.resolve(), Some(Ok(None))));
    assert_eq!(window_path.uri, "C:\\Users\\me\\meta.dhall".to_string());

    let mut file_prefix_path = MetaFile { uri: "fIlE:///Users/me/meta.dhall".to_string(), crc32: None };
    assert!(matches!(file_prefix_path.resolve(), Some(Ok(None))));
    assert_eq!(file_prefix_path.uri, "/Users/me/meta.dhall".to_string());

    let mut unix_abs_path = MetaFile { uri: "/Users/me/meta.dhall".to_string(), crc32: None };
    assert!(matches!(unix_abs_path.resolve(), Some(Ok(None))));
    assert_eq!(unix_abs_path.uri, "/Users/me/meta.dhall".to_string());

    let mut unix_rel_path = MetaFile { uri: "../Users/me/meta.dhall".to_string(), crc32: None };
    assert!(matches!(unix_rel_path.resolve(), Some(Ok(None))));
    assert_eq!(unix_rel_path.uri, "../Users/me/meta.dhall".to_string());
}

#[test]
fn remote_uris_name_their_cache_file() {
    let mut remote = MetaFile { uri: "http://public-data.nyxspace.com/anise/de440s.bsp".to_string(), crc32: None };
    match remote.resolve() {
        Some(Ok(Some(name))) => assert_eq!(name, "de440s.bsp"),
        other => panic!("unexpected {other:?}"),
    }
    assert_eq!(remote.uri, "http://public-data.nyxspace.com/anise/de440s.bsp");

    let mut folder = MetaFile { uri: "https://example.com/kernels/".to_string(), crc32: None };
    assert_eq!(
        folder.resolve(),
        Some(Err(MetaAlmanacError::MissingFilePath { path: "https://example.com/kernels/".to_string() }))
    );

    let mut up = MetaFile { uri: "https://example.com/kernels/..".to_string(), crc32: None };
    assert!(matches!(up.resolve(), Some(Ok(Some(_))) | Some(Err(MetaAlmanacError::MissingFilePath { .. }))));
}

#[test]
fn file_uris_that_cannot_be_sliced() {
    let mut short = MetaFile { uri: "file:a".to_string(), crc32: None };
    assert_eq!(short.resolve(), None);
    assert_eq!(short.uri, "file:a");
}

#[test]
fn resolve_parsed_decisions() {
    let mut f = MetaFile { uri: "http://host/x.bsp".to_string(), crc32: Some(3) };
    assert_eq!(
        f.resolve_parsed(Some(("http".to_string(), Some("x.bsp".to_string()))), Some("x.bsp".to_string())),
        Ok(Some("x.bsp".to_string()))
    );
    assert_eq!(
        f.resolve_parsed(Some(("https".to_string(), None)), None),
        Err(MetaAlmanacError::MissingFilePath { path: "http://host/x.bsp".to_string() })
    );
    assert_eq!(f.resolve_parsed(Some(("ftp".to_string(), None)), None), Ok(None));
    assert_eq!(f.resolve_parsed(None, None), Ok(None));
    assert_eq!(f.uri, "http://host/x.bsp");
    assert_eq!(f.crc32, Some(3));

    let mut g = MetaFile { uri: "file:///data/de440s.bsp".to_string(), crc32: None };
    assert_eq!(g.resolve_parsed(Some(("file".to_string(), Some("de440s.bsp".to_string()))), None), Ok(None));
    assert_eq!(g.uri, "/data/de440s.bsp");
}

#[test]
fn cache_checks_the_crc32() {
    // CRC32 (IEEE) of "123456789" is 0xCBF43926.
    let bytes = b"123456789";
    let mut with_crc = MetaFile { uri: "http://h/f.bsp".to_string(), crc32: Some(0xCBF43926) };
    assert!(with_crc.use_cached("/cache/f.bsp".to_string(), bytes));
    assert_eq!(with_crc.uri, "/cache/f.bsp");

    let mut wrong_crc = MetaFile { uri: "http://h/f.bsp".to_string(), crc32: Some(1) };
    assert!(!wrong_crc.use_cached("/cache/f.bsp".to_string(), bytes));
    assert_eq!(wrong_crc.uri, "http://h/f.bsp");

    let mut no_crc = MetaFile { uri: "http://h/f.bsp".to_string(), crc32: None };
    assert!(!no_crc.use_cached("/cache/f.bsp".to_string(), bytes));
    assert_eq!(no_crc.uri, "http://h/f.bsp");
}

#[test]
fn download_records_path_and_crc32() {
    let mut f = MetaFile { uri: "http://h/f.bsp".to_string(), crc32: None };
    f.record_download("/cache/f.bsp".to_string(), b"123456789");
    assert_eq!(f, MetaFile { uri: "/cache/f.bsp".to_string(), crc32: Some(0xCBF43926) });
    f.record_download("/cache/f.bsp".to_string(), b"");
    assert_eq!(f.crc32, Some(0));
}

#[test]
fn default_meta_almanac() {
    let meta = MetaAlmanac::default();
    let expected = vec![
        MetaFile {
            uri: "http://public-data.nyxspace.com/anise/de440s.bsp".to_string(),
            crc32: Some(0x7286750a),
        },
        MetaFile {
            uri: "http://public-data.nyxspace.com/anise/v0.5/pck11.pca".to_string(),
            crc32: Some(0x8213b6e9),
        },
        MetaFile {
            uri: "http://public-data.nyxspace.com/anise/v0.5/moon_fk.epa".to_string(),
            crc32: Some(0xb93ba21),
        },
        MetaFile {
            uri: "http://public-data.nyxspace.com/anise/moon_pa_de440_200625.bpc".to_string(),
            crc32: Some(0xcde5ca7d),
        },
        MetaFile {
            uri: "https://naif.jpl.nasa.gov/pub/naif/generic_kernels/pck/earth_latest_high_prec.bpc".to_string(),
            crc32: None,
        },
    ];
    assert_eq!(meta.files, expected);
}

#[test]
fn downloaded_file_is_then_cached() {
    let bytes = b"DAF/SPK bytes of a kernel";
    let mut f = MetaFile { uri: "http://h/k.bsp".to_string(), crc32: None };
    f.record_download("/cache/k.bsp".to_string(), bytes);
    let mut again = MetaFile { uri: "http://h/k.bsp".to_string(), crc32: f.crc32 };
    assert!(again.use_cached("/cache/k.bsp".to_string(), bytes));
    assert_eq!(again.uri, "/cache/k.bsp");
    assert!(!again.use_cached("/cache/k.bsp".to_string(), b"other bytes"));
}

#[test]
fn remote_file_name_is_the_last_segment() {
    let mut f = MetaFile { uri: "https://naif.jpl.nasa.gov/pub/naif/generic_kernels/pck/earth_latest_high_prec.bpc".to_string(), crc32: None };
    assert_eq!(f.resolve(), Some(Ok(Some("earth_latest_high_prec.bpc".to_string()))));
    let mut dot = MetaFile { uri: "http://example.com/kernels/.".to_string(), crc32: None };
    assert!(matches!(dot.resolve(), Some(Err(MetaAlmanacError::MissingFilePath { .. }))));
}
