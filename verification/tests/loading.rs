use anise::almanac::Almanac;
use anise::errors::AlmanacError;
use anise::loading::{DataSetType, LoadAs};

fn generic(s: &str) -> AlmanacError {
    AlmanacError::GenericError { err: s.to_string() }
}

#[test]
fn daf_files_by_identification() {
    assert_eq!(Almanac::load_as(Some("PCK"), None, None), Ok(LoadAs::Bpc));
    assert_eq!(Almanac::load_as(Some("SPK"), Some(Ok(DataSetType::PlanetaryData)), None), Ok(LoadAs::Spk));
    assert_eq!(Almanac::load_as(Some("EK"), None, Some("a.bes")), Err(generic("DAF/EK is not yet supported")));
}

#[test]
fn data_sets_by_type() {
    assert_eq!(Almanac::load_as(None, Some(Ok(DataSetType::SpacecraftData)), None), Ok(LoadAs::SpacecraftData));
    assert_eq!(Almanac::load_as(None, Some(Ok(DataSetType::PlanetaryData)), None), Ok(LoadAs::PlanetaryData));
    assert_eq!(
        Almanac::load_as(None, Some(Ok(DataSetType::EulerParameterData)), None),
        Ok(LoadAs::EulerParameterData)
    );
    assert_eq!(Almanac::load_as(None, Some(Ok(DataSetType::LocationData)), None), Ok(LoadAs::LocationData));
    assert_eq!(
        Almanac::load_as(None, Some(Ok(DataSetType::NotApplicable)), Some("../data/x.pca")),
        Err(generic("Malformed dataset type in ../data/x.pca"))
    );
    assert_eq!(
        Almanac::load_as(None, Some(Ok(DataSetType::NotApplicable)), None),
        Err(generic("Malformed dataset type in bytes"))
    );
    assert_eq!(
        Almanac::load_as(None, Some(Err("9 is not a data set type".to_string())), None),
        Err(generic("Invalid dataset type: 9 is not a data set type"))
    );
    assert_eq!(
        Almanac::load_as(None, None, None),
        Err(generic("file cannot be inspected or loaded directly in ANISE"))
    );
}

#[test]
fn load_errors_name_the_path() {
    assert_eq!(
        Almanac::with_path("de440s.bsp", generic("DAF/EK is not yet supported")),
        generic("with de440s.bsp: DAF/EK is not yet supported")
    );
    let other = AlmanacError::Loading { path: "x".to_string(), source: "not found".to_string() };
    assert_eq!(Almanac::with_path("x", other.clone()), other);
}
