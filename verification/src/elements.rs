//! The orbital elements that ANISE computes from a state, and their units.
use vstd::prelude::*;

verus! {

/// The orbital elements supported in ANISE, all built from a state.
#[allow(non_camel_case_types, clippy::upper_case_acronyms)]
#[derive(Copy, Clone, Debug, PartialEq, Eq, Structural)]
pub enum OrbitalElement {
    /// Argument of Latitude (deg)
    AoL,
    /// Argument of Periapse (deg)
    AoP,
    /// Radius of apoapsis (km)
    ApoapsisRadius,
    /// Altitude of apoapsis (km)
    ApoapsisAltitude,
    /// C_3 in (km/s)^2
    C3,
    /// Declination (deg) (also called elevation if in a body fixed frame)
    Declination,
    /// Eccentric anomaly (deg)
    EccentricAnomaly,
    /// Eccentricity (no unit)
    Eccentricity,
    /// Specific energy
    Energy,
    /// Flight path angle (deg)
    FlightPathAngle,
    /// Geodetic height (km)
    Height,
    /// Geodetic latitude (deg)
    Latitude,
    /// Geodetic longitude (deg)
    Longitude,
    /// Orbital momentum
    Hmag,
    /// X component of the orbital momentum vector
    HX,
    /// Y component of the orbital momentum vector
    HY,
    /// Z component of the orbital momentum vector
    HZ,
    /// Hyperbolic anomaly (deg), only valid for hyperbolic orbits
    HyperbolicAnomaly,
    /// Inclination (deg)
    Inclination,
    /// Mean anomaly (deg)
    MeanAnomaly,
    /// Radius of periapse (km)
    PeriapsisRadius,
    /// Altitude of periapse (km)
    PeriapsisAltitude,
    /// Orbital period (s)
    Period,
    /// Right ascension (deg)
    RightAscension,
    /// Right ascension of the ascending node (deg)
    RAAN,
    /// Norm of the radius vector
    Rmag,
    /// Semi parameter (km)
    SemiParameter,
    /// Semi major axis (km)
    SemiMajorAxis,
    /// Semi minor axis (km)
    SemiMinorAxis,
    /// True anomaly
    TrueAnomaly,
    /// True longitude
    TrueLongitude,
    /// Velocity declination (deg)
    VelocityDeclination,
    /// Norm of the velocity vector (km/s)
    Vmag,
    /// X component of the radius (km)
    X,
    /// Y component of the radius (km)
    Y,
    /// Z component of the radius (km)
    Z,
    /// X component of the velocity (km/s)
    VX,
    /// Y component of the velocity (km/s)
    VY,
    /// Z component of the velocity (km/s)
    VZ,
}

/// Whether the element is an angle.
pub open spec fn spec_is_angle(e: OrbitalElement) -> bool {
    match e {
        OrbitalElement::AoL
        | OrbitalElement::AoP
        | OrbitalElement::Declination
        | OrbitalElement::EccentricAnomaly
        | OrbitalElement::FlightPathAngle
        | OrbitalElement::Latitude
        | OrbitalElement::Longitude
        | OrbitalElement::HyperbolicAnomaly
        | OrbitalElement::Inclination
        | OrbitalElement::MeanAnomaly
        | OrbitalElement::RightAscension
        | OrbitalElement::RAAN
        | OrbitalElement::TrueAnomaly
        | OrbitalElement::TrueLongitude
        | OrbitalElement::VelocityDeclination => true,
        _ => false,
    }
}

/// The unit of the element.
pub open spec fn spec_unit(e: OrbitalElement) -> Seq<char> {
    match e {
        OrbitalElement::AoL
        | OrbitalElement::AoP
        | OrbitalElement::Declination
        | OrbitalElement::Latitude
        | OrbitalElement::Longitude
        | OrbitalElement::FlightPathAngle
        | OrbitalElement::Inclination
        | OrbitalElement::RightAscension
        | OrbitalElement::RAAN
        | OrbitalElement::TrueLongitude
        | OrbitalElement::VelocityDeclination
        | OrbitalElement::MeanAnomaly
        | OrbitalElement::EccentricAnomaly
        | OrbitalElement::HyperbolicAnomaly
        | OrbitalElement::TrueAnomaly => "deg"@,
        OrbitalElement::ApoapsisRadius
        | OrbitalElement::ApoapsisAltitude
        | OrbitalElement::Height
        | OrbitalElement::Hmag
        | OrbitalElement::HX
        | OrbitalElement::HY
        | OrbitalElement::HZ
        | OrbitalElement::PeriapsisRadius
        | OrbitalElement::PeriapsisAltitude
        | OrbitalElement::Rmag
        | OrbitalElement::SemiParameter
        | OrbitalElement::SemiMajorAxis
        | OrbitalElement::SemiMinorAxis
        | OrbitalElement::X
        | OrbitalElement::Y
        | OrbitalElement::Z => "km"@,
        OrbitalElement::VX
        | OrbitalElement::VY
        | OrbitalElement::VZ
        | OrbitalElement::Vmag => "km/s"@,
        OrbitalElement::C3
        | OrbitalElement::Energy => "km^2/s^2"@,
        OrbitalElement::Eccentricity => "unitless"@,
        OrbitalElement::Period => "s"@,
    }
}

impl OrbitalElement {
    /// Whether this element is an angle.
    pub fn is_angle(&self) -> (r: bool)
        ensures
            r == spec_is_angle(*self),
    {
        match self {
            OrbitalElement::AoL
            | OrbitalElement::AoP
            | OrbitalElement::Declination
            | OrbitalElement::EccentricAnomaly
            | OrbitalElement::FlightPathAngle
            | OrbitalElement::Latitude
            | OrbitalElement::Longitude
            | OrbitalElement::HyperbolicAnomaly
            | OrbitalElement::Inclination
            | OrbitalElement::MeanAnomaly
            | OrbitalElement::RightAscension
            | OrbitalElement::RAAN
            | OrbitalElement::TrueAnomaly
            | OrbitalElement::TrueLongitude
            | OrbitalElement::VelocityDeclination => true,
            _ => false,
        }
    }

    /// The unit of this element.
    pub fn unit(&self) -> (r: &'static str)
        ensures
            r@ == spec_unit(*self),
    {
        match self {
            OrbitalElement::AoL
            | OrbitalElement::AoP
            | OrbitalElement::Declination
            | OrbitalElement::Latitude
            | OrbitalElement::Longitude
            | OrbitalElement::FlightPathAngle
            | OrbitalElement::Inclination
            | OrbitalElement::RightAscension
            | OrbitalElement::RAAN
            | OrbitalElement::TrueLongitude
            | OrbitalElement::VelocityDeclination
            | OrbitalElement::MeanAnomaly
            | OrbitalElement::EccentricAnomaly
            | OrbitalElement::HyperbolicAnomaly
            | OrbitalElement::TrueAnomaly => "deg",
            OrbitalElement::ApoapsisRadius
            | OrbitalElement::ApoapsisAltitude
            | OrbitalElement::Height
            | OrbitalElement::Hmag
            | OrbitalElement::HX
            | OrbitalElement::HY
            | OrbitalElement::HZ
            | OrbitalElement::PeriapsisRadius
            | OrbitalElement::PeriapsisAltitude
            | OrbitalElement::Rmag
            | OrbitalElement::SemiParameter
            | OrbitalElement::SemiMajorAxis
            | OrbitalElement::SemiMinorAxis
            | OrbitalElement::X
            | OrbitalElement::Y
            | OrbitalElement::Z => "km",
            OrbitalElement::VX
            | OrbitalElement::VY
            | OrbitalElement::VZ
            | OrbitalElement::Vmag => "km/s",
            OrbitalElement::C3
            | OrbitalElement::Energy => "km^2/s^2",
            OrbitalElement::Eccentricity => "unitless",
            OrbitalElement::Period => "s",
        }
    }
}

/// An element is an angle exactly when its unit is degrees.
pub proof fn lemma_angle_iff_degrees(e: OrbitalElement)
    ensures
        spec_is_angle(e) <==> spec_unit(e) == "deg"@,
{
    reveal_strlit("deg");
    reveal_strlit("km");
    reveal_strlit("km/s");
    reveal_strlit("km^2/s^2");
    reveal_strlit("unitless");
    reveal_strlit("s");
    if !spec_is_angle(e) {
        assert(spec_unit(e).len() != 3 || spec_unit(e)[0] != 'd');
    }
}

/// The unit of each element follows its physical dimension: angles are in
/// degrees, distances and angular momenta in kilometres, velocities in
/// kilometres per second, specific energies in square kilometres per square
/// second, the eccentricity has no unit and the period is in seconds; and the
/// angles are exactly the elements that are angles.
pub proof fn lemma_units_by_dimension(e: OrbitalElement)
    ensures
        (e == OrbitalElement::AoL || e == OrbitalElement::AoP || e == OrbitalElement::Declination || e == OrbitalElement::EccentricAnomaly || e == OrbitalElement::FlightPathAngle || e == OrbitalElement::Latitude || e == OrbitalElement::Longitude || e == OrbitalElement::HyperbolicAnomaly || e == OrbitalElement::Inclination || e == OrbitalElement::MeanAnomaly || e == OrbitalElement::RightAscension || e == OrbitalElement::RAAN || e == OrbitalElement::TrueAnomaly || e == OrbitalElement::TrueLongitude || e == OrbitalElement::VelocityDeclination) ==> spec_unit(e) == "deg"@,
        (e == OrbitalElement::ApoapsisRadius || e == OrbitalElement::ApoapsisAltitude || e == OrbitalElement::Height || e == OrbitalElement::Hmag || e == OrbitalElement::HX || e == OrbitalElement::HY || e == OrbitalElement::HZ || e == OrbitalElement::PeriapsisRadius || e == OrbitalElement::PeriapsisAltitude || e == OrbitalElement::Rmag || e == OrbitalElement::SemiParameter || e == OrbitalElement::SemiMajorAxis || e == OrbitalElement::SemiMinorAxis || e == OrbitalElement::X || e == OrbitalElement::Y || e == OrbitalElement::Z) ==> spec_unit(e) == "km"@,
        (e == OrbitalElement::VX || e == OrbitalElement::VY || e == OrbitalElement::VZ || e == OrbitalElement::Vmag) ==> spec_unit(e) == "km/s"@,
        (e == OrbitalElement::C3 || e == OrbitalElement::Energy) ==> spec_unit(e) == "km^2/s^2"@,
        (e == OrbitalElement::Eccentricity) ==> spec_unit(e) == "unitless"@,
        (e == OrbitalElement::Period) ==> spec_unit(e) == "s"@,
        spec_is_angle(e) <==> (e == OrbitalElement::AoL || e == OrbitalElement::AoP || e == OrbitalElement::Declination || e == OrbitalElement::EccentricAnomaly || e == OrbitalElement::FlightPathAngle || e == OrbitalElement::Latitude || e == OrbitalElement::Longitude || e == OrbitalElement::HyperbolicAnomaly || e == OrbitalElement::Inclination || e == OrbitalElement::MeanAnomaly || e == OrbitalElement::RightAscension || e == OrbitalElement::RAAN || e == OrbitalElement::TrueAnomaly || e == OrbitalElement::TrueLongitude || e == OrbitalElement::VelocityDeclination),
{
}

} // verus!
