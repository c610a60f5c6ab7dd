use anise::almanac::Almanac;
use anise::domain::SummaryRecord;
use anise::errors::{AlmanacError, DAFError, DataSetError, EphemerisError, LutError, OrientationError};
use anise::registry::{DafKernel, DataSetIndex};

fn rec(id: i32, start: i128, end: i128) -> SummaryRecord {
    SummaryRecord { id, start, end }
}

fn kernel(records: &[SummaryRecord]) -> DafKernel {
    DafKernel { summaries: records.to_vec() }
}

fn dataset(ids: &[i32], names: &[&str]) -> DataSetIndex {
    DataSetIndex { ids: ids.to_vec(), names: names.iter().map(|s| s.to_string()).collect() }
}

#[test]
fn bpc_searches_with_nothing_loaded() {
    let almanac = Almanac::default();
    assert!(almanac.bpc_summaries(0).is_err(), "empty Almanac should report an error");
    assert!(almanac.bpc_domain(0).is_err(), "empty Almanac should report an error");
    assert_eq!(almanac.bpc_domains(), Err(OrientationError::NoOrientationsLoaded));
}

#[test]
fn spk_searches_with_nothing_loaded() {
    let almanac = Almanac::default();
    let expected = EphemerisError::SPK {
        action: "searching for SPK summary",
        source: DAFError::SummaryIdError { kind: "SPK", id: 0 },
    };
    assert_eq!(almanac.spk_summaries(0), Err(expected.clone()));
    assert_eq!(almanac.spk_domain(0), Err(expected));
    assert_eq!(almanac.spk_domains(), Err(EphemerisError::NoEphemerisLoaded));
    assert_eq!(almanac.num_loaded_spk(), 0);
}

#[test]
fn spk_summaries_in_reverse_loading_order() {
    let first = kernel(&[rec(399, 0, 100), rec(301, 0, 50), rec(399, 200, 300)]);
    let second = kernel(&[rec(399, 1000, 2000)]);
    let almanac = Almanac::default()
        .with_spk_as(first, Some("first".to_string()))
        .with_spk_as(second, Some("second".to_string()));
    assert_eq!(almanac.num_loaded_spk(), 2);
    assert_eq!(
        almanac.spk_summaries(399).unwrap(),
        vec![rec(399, 1000, 2000), rec(399, 0, 100), rec(399, 200, 300)]
    );
    assert_eq!(almanac.spk_summaries(301).unwrap(), vec![rec(301, 0, 50)]);
    assert!(almanac.spk_summaries(10).is_err());
}

#[test]
fn spk_domain_and_gaps() {
    let almanac = Almanac::default()
        .with_spk_as(kernel(&[rec(-159, 0, 10)]), Some("a".to_string()))
        .with_spk_as(kernel(&[rec(-159, 100, 110)]), Some("b".to_string()));
    assert_eq!(almanac.spk_domain(-159), Ok((0, 110)));
    assert_eq!(almanac.spk_domain_and_gap(-159), Ok((0, 110, true)));

    let overlapping = Almanac::default()
        .with_spk_as(kernel(&[rec(5, 0, 50), rec(5, 40, 90)]), Some("c".to_string()));
    assert_eq!(overlapping.spk_domain_and_gap(5), Ok((0, 90, false)));
}

#[test]
fn spk_domains_agree_with_spk_domain() {
    let almanac = Almanac::default()
        .with_spk_as(kernel(&[rec(1, 5, 10), rec(2, 0, 3)]), Some("a".to_string()))
        .with_spk_as(kernel(&[rec(1, 0, 7), rec(1, 20, 30)]), Some("b".to_string()));
    let domains = almanac.spk_domains().unwrap();
    assert_eq!(domains.len(), 2);
    assert_eq!(domains[&1], (0, 30));
    assert_eq!(domains[&2], (0, 3));
    assert_eq!(almanac.spk_domain(1), Ok(domains[&1]));
    assert_eq!(almanac.spk_domain(2), Ok(domains[&2]));
}

#[test]
fn bpc_domain_and_domains() {
    let almanac = Almanac::from_bpc(kernel(&[rec(3000, -50, 50), rec(3000, 40, 80)]))
        .with_bpc_as(kernel(&[rec(31006, 0, 1)]), Some("moon".to_string()));
    assert_eq!(almanac.num_loaded_bpc(), 2);
    assert_eq!(almanac.bpc_domain(3000), Ok((-50, 80)));
    let domains = almanac.bpc_domains().unwrap();
    assert_eq!(domains[&3000], (-50, 80));
    assert_eq!(domains[&31006], (0, 1));
    assert_eq!(
        almanac.bpc_summaries(1),
        Err(OrientationError::BPC {
            action: "searching for BPC summary",
            source: DAFError::SummaryIdError { kind: "BPC", id: 1 },
        })
    );
}

#[test]
fn load_then_unload_restores() {
    let base = Almanac::default().with_spk_as(kernel(&[rec(1, 0, 1)]), Some("base".to_string()));
    let mut almanac = base.with_spk_as(kernel(&[rec(2, 0, 1)]), Some("extra".to_string()));
    assert_eq!(almanac.list_kernels(Some(true), None, None, None, None, None), vec!["base", "extra"]);
    assert_eq!(almanac.spk_unload("extra"), Ok(()));
    assert_eq!(almanac.list_kernels(Some(true), None, None, None, None, None), vec!["base"]);
    assert!(almanac.spk_summaries(2).is_err());
    assert_eq!(
        almanac.spk_unload("extra"),
        Err(EphemerisError::AliasNotFound { alias: "extra".to_string(), action: "unload ephemeris" })
    );
}

#[test]
fn unload_swaps_the_last_kernel_in() {
    let mut almanac = Almanac::default()
        .with_bpc_as(kernel(&[]), Some("a".to_string()))
        .with_bpc_as(kernel(&[]), Some("b".to_string()))
        .with_bpc_as(kernel(&[]), Some("c".to_string()));
    assert_eq!(almanac.bpc_unload("a"), Ok(()));
    assert_eq!(almanac.list_kernels(None, Some(true), None, None, None, None), vec!["c", "b"]);
    assert_eq!(
        almanac.bpc_unload("zz"),
        Err(OrientationError::AliasNotFound { alias: "zz".to_string(), action: "unload BPC" })
    );
}

#[test]
fn reload_under_same_alias_replaces_in_place() {
    let almanac = Almanac::default()
        .with_spk_as(kernel(&[rec(1, 0, 1)]), Some("a".to_string()))
        .with_spk_as(kernel(&[rec(2, 0, 1)]), Some("b".to_string()))
        .with_spk_as(kernel(&[rec(3, 0, 1)]), Some("a".to_string()));
    assert_eq!(almanac.num_loaded_spk(), 2);
    assert_eq!(almanac.list_kernels(Some(true), None, None, None, None, None), vec!["a", "b"]);
    assert!(almanac.spk_summaries(1).is_err());
    assert_eq!(almanac.spk_summaries(3).unwrap(), vec![rec(3, 0, 1)]);
}

#[test]
fn loading_without_alias_uses_the_current_epoch() {
    let almanac = Almanac::from_spk(kernel(&[rec(1, 0, 1)]));
    assert_eq!(almanac.num_loaded_spk(), 1);
    let names = almanac.list_kernels(Some(true), None, None, None, None, None);
    assert_eq!(names.len(), 1);
    assert!(!names[0].is_empty());
}

#[test]
fn spk_swap_replaces_and_renames() {
    let mut almanac = Almanac::default()
        .with_spk_as(kernel(&[rec(1, 0, 1)]), Some("a".to_string()))
        .with_spk_as(kernel(&[rec(2, 0, 1)]), Some("b".to_string()));
    assert_eq!(almanac.spk_swap("a", kernel(&[rec(7, 0, 1)]), "a".to_string()), Ok(()));
    assert_eq!(almanac.list_kernels(Some(true), None, None, None, None, None), vec!["a", "b"]);
    assert!(almanac.spk_summaries(1).is_err());
    assert_eq!(almanac.spk_summaries(7).unwrap(), vec![rec(7, 0, 1)]);

    assert_eq!(almanac.spk_swap("a", kernel(&[rec(8, 0, 1)]), "z".to_string()), Ok(()));
    assert_eq!(almanac.list_kernels(Some(true), None, None, None, None, None), vec!["b", "z"]);
    assert_eq!(almanac.spk_summaries(8).unwrap(), vec![rec(8, 0, 1)]);

    assert_eq!(
        almanac.spk_swap("nope", kernel(&[]), "x".to_string()),
        Err(AlmanacError::GenericError { err: "no SPK alias `nope`".to_string() })
    );
    assert_eq!(almanac.num_loaded_spk(), 2);
}

#[test]
fn bpc_swap_unknown_alias() {
    let mut almanac = Almanac::default();
    assert_eq!(
        almanac.bpc_swap("earth", kernel(&[]), "earth".to_string()),
        Err(AlmanacError::GenericError { err: "no BPC alias `earth`".to_string() })
    );
    let mut almanac = almanac.with_bpc_as(kernel(&[rec(3000, 0, 1)]), Some("earth".to_string()));
    assert_eq!(almanac.bpc_swap("earth", kernel(&[rec(3000, 5, 9)]), "earth".to_string()), Ok(()));
    assert_eq!(almanac.bpc_domain(3000), Ok((5, 9)));
}

#[test]
fn list_kernels_by_kind() {
    let almanac = Almanac::default()
        .with_spk_as(kernel(&[]), Some("de440s.bsp".to_string()))
        .with_bpc_as(kernel(&[]), Some("earth.bpc".to_string()))
        .with_planetary_data_as(dataset(&[], &[]), Some("pck11.pca".to_string()))
        .with_spacecraft_data_as(dataset(&[], &[]), Some("sc.sca".to_string()))
        .with_euler_parameters_as(dataset(&[], &[]), Some("moon_fk.epa".to_string()))
        .with_location_data_as(dataset(&[], &[]), Some("dsn.lda".to_string()));
    assert_eq!(
        almanac.list_kernels(None, None, None, None, None, None),
        vec!["de440s.bsp", "earth.bpc", "pck11.pca", "sc.sca", "moon_fk.epa", "dsn.lda"]
    );
    // Spacecraft data is listed only when asked for, or when nothing is.
    assert_eq!(almanac.list_kernels(Some(true), None, None, None, None, None), vec!["de440s.bsp"]);
    assert_eq!(
        almanac.list_kernels(None, None, None, Some(true), None, None),
        vec!["de440s.bsp", "earth.bpc", "pck11.pca", "sc.sca", "moon_fk.epa", "dsn.lda"]
    );
    assert_eq!(
        almanac.list_kernels(None, Some(true), None, Some(true), None, Some(true)),
        vec!["earth.bpc", "sc.sca", "dsn.lda"]
    );
    assert_eq!(
        almanac.list_kernels(Some(false), Some(false), Some(false), Some(false), Some(false), Some(false)),
        Vec::<String>::new()
    );
}

#[test]
fn almanac_summary_line() {
    assert_eq!(Almanac::default().to_string(), "Almanac: #SPK = 0\t#BPC = 0");
    let almanac = Almanac::default()
        .with_spk_as(kernel(&[]), Some("a".to_string()))
        .with_spk_as(kernel(&[]), Some("b".to_string()))
        .with_location_data_as(dataset(&[], &[]), Some("l".to_string()))
        .with_planetary_data_as(dataset(&[], &[]), Some("p".to_string()));
    assert_eq!(
        almanac.to_string(),
        "Almanac: #SPK = 2\t#BPC = 0\t#Planetary kernels = 1\t#Location kernels = 1"
    );
}

#[test]
fn test_spacecraft_retrieval() {
    let sc_dataset = dataset(&[-101, -102], &["SC1", "SC2"]);
    let almanac = Almanac::default().with_spacecraft_data(sc_dataset);

    // Fetch by ID
    assert_eq!(almanac.spacecraft_data_from_id(-101).unwrap(), (0, 0));
    assert_eq!(almanac.spacecraft_data_from_id(-102).unwrap(), (0, 1));

    // Fetch by Name
    assert_eq!(almanac.spacecraft_data_from_name("SC1").unwrap(), (0, 0));
    assert_eq!(almanac.spacecraft_data_from_name("SC2").unwrap(), (0, 1));

    // Error cases
    assert!(almanac.spacecraft_data_from_id(-999).is_err());
    assert!(almanac.spacecraft_data_from_name("Unknown").is_err());
}

#[test]
fn data_set_searches_prefer_the_latest() {
    let almanac = Almanac::default()
        .with_spacecraft_data_as(dataset(&[-1, -2], &["A", "B"]), Some("old".to_string()))
        .with_spacecraft_data_as(dataset(&[-2, -3], &["B", "C"]), Some("new".to_string()));
    assert_eq!(almanac.spacecraft_data_from_id(-1), Ok((0, 0)));
    assert_eq!(almanac.spacecraft_data_from_id(-2), Ok((1, 0)));
    assert_eq!(almanac.spacecraft_data_from_name("B"), Ok((1, 0)));
    assert_eq!(
        almanac.spacecraft_data_from_id(-9),
        Err(AlmanacError::TLDataSet {
            action: "spacecraft data from ID",
            source: DataSetError::DataSetLut {
                action: "seeking spacecraft data by ID",
                source: LutError::UnknownId { id: -9 },
            },
        })
    );
    assert_eq!(
        almanac.spacecraft_data_from_name("Z"),
        Err(AlmanacError::TLDataSet {
            action: "spacecraft data from name",
            source: DataSetError::DataSetLut {
                action: "seeking spacecraft data by name",
                source: LutError::UnknownName { name: "Z".to_string() },
            },
        })
    );
}

#[test]
fn other_data_set_searches() {
    let mut almanac = Almanac::default()
        .with_planetary_data_as(dataset(&[399, 301], &["Earth", "Moon"]), Some("pca".to_string()))
        .with_euler_parameters_as(dataset(&[31007], &["MOON_PA"]), Some("epa".to_string()));
    almanac.instrument_data = Almanac::default()
        .with_spacecraft_data_as(dataset(&[-10001], &["CAM"]), Some("ins".to_string()))
        .spacecraft_data;
    assert_eq!(almanac.get_planetary_data_from_id(301), Ok((0, 1)));
    assert!(almanac.get_planetary_data_from_id(10).is_err());
    assert_eq!(almanac.euler_param_from_id(31007), Ok((0, 0)));
    assert!(almanac.euler_param_from_id(1).is_err());
    assert_eq!(almanac.instrument_from_id(-10001), Ok((0, 0)));
    assert_eq!(almanac.instrument_from_name("CAM"), Ok((0, 0)));
    assert!(almanac.instrument_from_name("LIDAR").is_err());
}

#[test]
fn data_sets_loaded_without_alias() {
    let almanac = Almanac::default()
        .with_planetary_data(dataset(&[399], &["Earth"]))
        .with_euler_parameters(dataset(&[31007], &["MOON_PA"]))
        .with_location_data(dataset(&[1], &["DSS-65"]))
        .with_spacecraft_data(dataset(&[-85], &["LRO"]));
    assert_eq!(almanac.get_planetary_data_from_id(399), Ok((0, 0)));
    assert_eq!(almanac.euler_param_from_id(31007), Ok((0, 0)));
    assert_eq!(almanac.spacecraft_data_from_name("LRO"), Ok((0, 0)));
    let listed = almanac.list_kernels(None, None, Some(true), None, Some(true), Some(true));
    assert_eq!(listed.len(), 3);
}

#[test]
fn summary_searches_by_id_and_epoch() {
    let almanac = Almanac::default()
        .with_spk_as(kernel(&[rec(399, 0, 100), rec(301, 0, 50), rec(399, 200, 300)]), Some("first".to_string()))
        .with_spk_as(kernel(&[rec(301, 60, 70)]), Some("second".to_string()));
    assert_eq!(almanac.spk_summary(399), Ok((rec(399, 0, 100), 0, 0)));
    assert_eq!(almanac.spk_summary(301), Ok((rec(301, 60, 70), 1, 0)));
    assert_eq!(almanac.spk_summary_at_epoch(399, 250), Ok((rec(399, 200, 300), 0, 2)));
    assert_eq!(almanac.spk_summary_at_epoch(301, 10), Ok((rec(301, 0, 50), 0, 1)));
    assert_eq!(
        almanac.spk_summary_at_epoch(399, 150),
        Err(EphemerisError::SPK {
            action: "searching for SPK summary",
            source: DAFError::SummaryIdAtEpochError { kind: "SPK", id: 399, epoch: 150, start: 0, end: 300, has_gap: Some(true) },
        })
    );
    assert_eq!(
        almanac.spk_summary_at_epoch(5, 0),
        Err(EphemerisError::SPK {
            action: "searching for SPK summary",
            source: DAFError::SummaryIdError { kind: "SPK", id: 5 },
        })
    );
    assert!(almanac.spk_summary(5).is_err());

    let bpcs = Almanac::from_bpc(kernel(&[rec(3000, 0, 10), rec(3000, 20, 30)]));
    assert_eq!(bpcs.bpc_summary(3000), Ok((rec(3000, 0, 10), 0, 0)));
    assert_eq!(bpcs.bpc_summary_at_epoch(3000, 25), Ok((rec(3000, 20, 30), 0, 1)));
    assert_eq!(
        bpcs.bpc_summary_at_epoch(3000, 15),
        Err(OrientationError::BPC {
            action: "searching for SPK summary",
            source: DAFError::SummaryIdAtEpochError { kind: "BPC", id: 3000, epoch: 15, start: 0, end: 30, has_gap: None },
        })
    );
    assert!(bpcs.bpc_summary(1).is_err());
}
