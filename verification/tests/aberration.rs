use anise::aberration::Aberration;
use anise::errors::PhysicsError;

#[test]
fn test_display() {
    assert_eq!(Aberration::lt().unwrap().spice_name(), "LT");
    assert_eq!(Aberration::lt_s().unwrap().spice_name(), "LT+S");
    assert_eq!(Aberration::cn().unwrap().spice_name(), "CN");
    assert_eq!(Aberration::cn_s().unwrap().spice_name(), "CN+S");

    assert_eq!(Aberration::xlt().unwrap().spice_name(), "XLT");
    assert_eq!(Aberration::xlt_s().unwrap().spice_name(), "XLT+S");
    assert_eq!(Aberration::xcn().unwrap().spice_name(), "XCN");
    assert_eq!(Aberration::xcn_s().unwrap().spice_name(), "XCN+S");
}

#[test]
fn aberration_new_reads_every_name() {
    assert_eq!(Aberration::new("NONE"), Ok(None));
    assert_eq!(Aberration::new("LT"), Ok(Aberration::lt()));
    assert_eq!(Aberration::new("LT+S"), Ok(Aberration::lt_s()));
    assert_eq!(Aberration::new("CN"), Ok(Aberration::cn()));
    assert_eq!(Aberration::new("CN+S"), Ok(Aberration::cn_s()));
    assert_eq!(Aberration::new("XLT"), Ok(Aberration::xlt()));
    assert_eq!(Aberration::new("XLT+S"), Ok(Aberration::xlt_s()));
    assert_eq!(Aberration::new("XCN"), Ok(Aberration::xcn()));
    assert_eq!(Aberration::new("XCN+S"), Ok(Aberration::xcn_s()));
}

#[test]
fn aberration_new_trims_white_space() {
    assert_eq!(Aberration::new("  LT+S \t\n"), Ok(Aberration::lt_s()));
    assert_eq!(Aberration::new("\u{3000}XCN\u{2009}"), Ok(Aberration::xcn()));
}

#[test]
fn aberration_new_rejects_unknown_names() {
    let err = Err(PhysicsError::AberrationError { action: "unknown aberration configuration name" });
    assert_eq!(Aberration::new("lt"), err);
    assert_eq!(Aberration::new("LT + S"), err);
    assert_eq!(Aberration::new(""), err);
}

#[test]
fn aberration_name_round_trip() {
    let all = [
        Aberration::lt(),
        Aberration::lt_s(),
        Aberration::cn(),
        Aberration::cn_s(),
        Aberration::xlt(),
        Aberration::xlt_s(),
        Aberration::xcn(),
        Aberration::xcn_s(),
    ];
    for a in all.iter() {
        let name = a.unwrap().spice_name();
        assert_eq!(Aberration::new(&name), Ok(*a));
    }
    assert_eq!(Aberration::none(), None);
}

#[test]
fn aberration_descriptions() {
    assert_eq!(Aberration::lt().unwrap().description(), "unconverged light-time aberration");
    assert_eq!(
        Aberration::xcn_s().unwrap().description(),
        "converged light-time and stellar aberration in transmit mode"
    );
    assert_eq!(
        Aberration::default(),
        Aberration { converged: false, stellar: false, transmit_mode: false }
    );
}
