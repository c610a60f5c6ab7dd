use anise::elements::OrbitalElement;

#[test]
fn element_units() {
    assert_eq!(OrbitalElement::AoL.unit(), "deg");
    assert_eq!(OrbitalElement::TrueAnomaly.unit(), "deg");
    assert_eq!(OrbitalElement::SemiMajorAxis.unit(), "km");
    assert_eq!(OrbitalElement::Hmag.unit(), "km");
    assert_eq!(OrbitalElement::Vmag.unit(), "km/s");
    assert_eq!(OrbitalElement::VZ.unit(), "km/s");
    assert_eq!(OrbitalElement::C3.unit(), "km^2/s^2");
    assert_eq!(OrbitalElement::Energy.unit(), "km^2/s^2");
    assert_eq!(OrbitalElement::Eccentricity.unit(), "unitless");
    assert_eq!(OrbitalElement::Period.unit(), "s");
}

#[test]
fn element_angles() {
    assert!(OrbitalElement::RAAN.is_angle());
    assert!(OrbitalElement::Latitude.is_angle());
    assert!(OrbitalElement::HyperbolicAnomaly.is_angle());
    assert!(!OrbitalElement::Height.is_angle());
    assert!(!OrbitalElement::Eccentricity.is_angle());
    assert!(!OrbitalElement::X.is_angle());
}

#[test]
fn element_angle_iff_degrees() {
    let all = [
        OrbitalElement::AoL,
        OrbitalElement::AoP,
        OrbitalElement::ApoapsisRadius,
        OrbitalElement::ApoapsisAltitude,
        OrbitalElement::C3,
        OrbitalElement::Declination,
        OrbitalElement::EccentricAnomaly,
        OrbitalElement::Eccentricity,
        OrbitalElement::Energy,
        OrbitalElement::FlightPathAngle,
        OrbitalElement::Height,
        OrbitalElement::Latitude,
        OrbitalElement::Longitude,
        OrbitalElement::Hmag,
        OrbitalElement::HX,
        OrbitalElement::HY,
        OrbitalElement::HZ,
        OrbitalElement::HyperbolicAnomaly,
        OrbitalElement::Inclination,
        OrbitalElement::MeanAnomaly,
        OrbitalElement::PeriapsisRadius,
        OrbitalElement::PeriapsisAltitude,
        OrbitalElement::Period,
        OrbitalElement::RightAscension,
        OrbitalElement::RAAN,
        OrbitalElement::Rmag,
        OrbitalElement::SemiParameter,
        OrbitalElement::SemiMajorAxis,
        OrbitalElement::SemiMinorAxis,
        OrbitalElement::TrueAnomaly,
        OrbitalElement::TrueLongitude,
        OrbitalElement::VelocityDeclination,
        OrbitalElement::Vmag,
        OrbitalElement::X,
        OrbitalElement::Y,
        OrbitalElement::Z,
        OrbitalElement::VX,
        OrbitalElement::VY,
        OrbitalElement::VZ,
    ];
    let mut angles = 0;
    for e in all.iter() {
        assert_eq!(e.is_angle(), e.unit() == "deg");
        if e.is_angle() {
            angles += 1;
        }
    }
    assert_eq!(angles, 15);
}
