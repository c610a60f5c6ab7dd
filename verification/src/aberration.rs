//! Aberration correction flags and their SPICE names.
use vstd::prelude::*;
use vstd::string::*;

use crate::errors::PhysicsError;
use crate::text::{chars_eq_str, is_white_space, lemma_trim_no_ws, trim_chars, trimmed};

verus! {

/// Aberration correction options: light-time iteration, stellar aberration and
/// the direction of the signal.
#[derive(Copy, Clone, PartialEq, Eq, Structural, Debug)]
pub struct Aberration {
    /// Whether the light time calculations are iterated upon.
    pub converged: bool,
    /// Whether the stellar aberration correction is applied.
    pub stellar: bool,
    /// True for transmission mode, false for reception mode.
    pub transmit_mode: bool,
}

impl Default for Aberration {
    fn default() -> (r: Self)
        ensures
            r == (Aberration { converged: false, stellar: false, transmit_mode: false }),
    {
        Aberration { converged: false, stellar: false, transmit_mode: false }
    }
}

/// The aberration with the given flags.
pub open spec fn flags(converged: bool, stellar: bool, transmit_mode: bool) -> Aberration {
    Aberration { converged, stellar, transmit_mode }
}

/// The correction named by a SPICE flag (already trimmed); `None` inside `Some`
/// for `NONE`, and `None` for an unknown name.
pub open spec fn spec_from_name(name: Seq<char>) -> Option<Option<Aberration>> {
    if name == "NONE"@ {
        Some(None)
    } else if name == "LT"@ {
        Some(Some(flags(false, false, false)))
    } else if name == "LT+S"@ {
        Some(Some(flags(false, true, false)))
    } else if name == "CN"@ {
        Some(Some(flags(true, false, false)))
    } else if name == "CN+S"@ {
        Some(Some(flags(true, true, false)))
    } else if name == "XLT"@ {
        Some(Some(flags(false, false, true)))
    } else if name == "XLT+S"@ {
        Some(Some(flags(false, true, true)))
    } else if name == "XCN"@ {
        Some(Some(flags(true, false, true)))
    } else if name == "XCN+S"@ {
        Some(Some(flags(true, true, true)))
    } else {
        None
    }
}

/// The SPICE name of an aberration: `X` in transmit mode, then `CN` or `LT`,
/// then `+S` with stellar aberration.
pub open spec fn spec_spice_name(a: Aberration) -> Seq<char> {
    (if a.transmit_mode { "X"@ } else { ""@ }) + (if a.converged { "CN"@ } else { "LT"@ }) + (
    if a.stellar { "+S"@ } else { ""@ })
}

/// The human readable description of an aberration.
pub open spec fn spec_description(a: Aberration) -> Seq<char> {
    (if a.converged { "converged "@ } else { "unconverged "@ }) + "light-time "@ + (if a.stellar {
        "and stellar aberration"@
    } else {
        "aberration"@
    }) + (if a.transmit_mode { " in transmit mode"@ } else { ""@ })
}

impl Aberration {
    /// Disables aberration corrections (geometric translations only).
    pub fn none() -> (r: Option<Self>)
        ensures
            r == None::<Aberration>,
    {
        None
    }

    /// Unconverged light time correction in reception mode without stellar aberration.
    pub fn lt() -> (r: Option<Self>)
        ensures
            r == Some(flags(false, false, false)),
    {
        Some(Aberration { converged: false, stellar: false, transmit_mode: false })
    }

    /// Unconverged light time correction in reception mode with stellar aberration.
    pub fn lt_s() -> (r: Option<Self>)
        ensures
            r == Some(flags(false, true, false)),
    {
        Some(Aberration { converged: false, stellar: true, transmit_mode: false })
    }

    /// Converged light time correction in reception mode without stellar aberration.
    pub fn cn() -> (r: Option<Self>)
        ensures
            r == Some(flags(true, false, false)),
    {
        Some(Aberration { converged: true, stellar: false, transmit_mode: false })
    }

    /// Converged light time correction in reception mode with stellar aberration.
    pub fn cn_s() -> (r: Option<Self>)
        ensures
            r == Some(flags(true, true, false)),
    {
        Some(Aberration { converged: true, stellar: true, transmit_mode: false })
    }

    /// Unconverged light time correction in transmission mode without stellar aberration.
    pub fn xlt() -> (r: Option<Self>)
        ensures
            r == Some(flags(false, false, true)),
    {
        Some(Aberration { converged: false, stellar: false, transmit_mode: true })
    }

    /// Unconverged light time correction in transmission mode with stellar aberration.
    pub fn xlt_s() -> (r: Option<Self>)
        ensures
            r == Some(flags(false, true, true)),
    {
        Some(Aberration { converged: false, stellar: true, transmit_mode: true })
    }

    /// Converged light time correction in transmission mode without stellar aberration.
    pub fn xcn() -> (r: Option<Self>)
        ensures
            r == Some(flags(true, false, true)),
    {
        Some(Aberration { converged: true, stellar: false, transmit_mode: true })
    }

    /// Converged light time correction in transmission mode with stellar aberration.
    pub fn xcn_s() -> (r: Option<Self>)
        ensures
            r == Some(flags(true, true, true)),
    {
        Some(Aberration { converged: true, stellar: true, transmit_mode: true })
    }

    /// Builds the correction from its SPICE flag, ignoring surrounding white
    /// space: `NONE`, `LT`, `LT+S`, `CN`, `CN+S`, `XLT`, `XLT+S`, `XCN`, `XCN+S`.
    pub fn new(flag: &str) -> (r: Result<Option<Self>, PhysicsError>)
        ensures
            match spec_from_name(trimmed(flag@)) {
                Some(a) => r == Ok::<Option<Aberration>, PhysicsError>(a),
                None => r == Err::<Option<Aberration>, PhysicsError>(
                    PhysicsError::AberrationError { action: "unknown aberration configuration name" },
                ),
            },
    {
        let t = trim_chars(flag);
        if chars_eq_str(&t, "NONE") {
            Ok(Self::none())
        } else if chars_eq_str(&t, "LT") {
            Ok(Self::lt())
        } else if chars_eq_str(&t, "LT+S") {
            Ok(Self::lt_s())
        } else if chars_eq_str(&t, "CN") {
            Ok(Self::cn())
        } else if chars_eq_str(&t, "CN+S") {
            Ok(Self::cn_s())
        } else if chars_eq_str(&t, "XLT") {
            Ok(Self::xlt())
        } else if chars_eq_str(&t, "XLT+S") {
            Ok(Self::xlt_s())
        } else if chars_eq_str(&t, "XCN") {
            Ok(Self::xcn())
        } else if chars_eq_str(&t, "XCN+S") {
            Ok(Self::xcn_s())
        } else {
            Err(PhysicsError::AberrationError { action: "unknown aberration configuration name" })
        }
    }

    /// The SPICE name of this configuration, e.g. `LT+S` or `XCN`.
    pub fn spice_name(&self) -> (r: String)
        ensures
            r@ == spec_spice_name(*self),
    {
        let mut s = String::new();
        if self.transmit_mode {
            s.append("X");
        } else {
            s.append("");
        }
        if self.converged {
            s.append("CN");
        } else {
            s.append("LT");
        }
        if self.stellar {
            s.append("+S");
        } else {
            s.append("");
        }
        s
    }

    /// A description of this configuration, e.g. `converged light-time and
    /// stellar aberration in transmit mode`.
    pub fn description(&self) -> (r: String)
        ensures
            r@ == spec_description(*self),
    {
        let mut s = String::new();
        if self.converged {
            s.append("converged ");
        } else {
            s.append("unconverged ");
        }
        s.append("light-time ");
        if self.stellar {
            s.append("and stellar aberration");
        } else {
            s.append("aberration");
        }
        if self.transmit_mode {
            s.append(" in transmit mode");
        } else {
            s.append("");
        }
        s
    }
}

/// Parsing the SPICE name of any aberration gives that aberration back.
pub proof fn lemma_spice_name_roundtrip(a: Aberration)
    ensures
        spec_from_name(trimmed(spec_spice_name(a))) == Some(Some(a)),
{
    reveal_strlit("X");
    reveal_strlit("");
    reveal_strlit("CN");
    reveal_strlit("LT");
    reveal_strlit("+S");
    reveal_strlit("NONE");
    reveal_strlit("LT+S");
    reveal_strlit("CN+S");
    reveal_strlit("XLT");
    reveal_strlit("XLT+S");
    reveal_strlit("XCN");
    reveal_strlit("XCN+S");
    let n = spec_spice_name(a);
    assert(n.len() > 0);
    assert(!is_white_space(n[0]));
    assert(!is_white_space(n.last()));
    lemma_trim_no_ws(n);
    if a.transmit_mode {
        if a.converged {
            if a.stellar {
                assert(n =~= "XCN+S"@);
                assert(n[1] != "XLT+S"@[1]);
            } else {
                assert(n =~= "XCN"@);
                assert(n[1] != "XLT"@[1]);
            }
        } else {
            if a.stellar {
                assert(n =~= "XLT+S"@);
            } else {
                assert(n =~= "XLT"@);
            }
        }
    } else {
        if a.converged {
            if a.stellar {
                assert(n =~= "CN+S"@);
                assert(n[0] != "NONE"@[0]);
                assert(n[0] != "LT+S"@[0]);
            } else {
                assert(n =~= "CN"@);
                assert(n[0] != "LT"@[0]);
            }
        } else {
            if a.stellar {
                assert(n =~= "LT+S"@);
                assert(n[0] != "NONE"@[0]);
            } else {
                assert(n =~= "LT"@);
            }
        }
    }
}

/// Two aberrations with the same SPICE name are the same aberration.
pub proof fn lemma_spice_name_injective(a: Aberration, b: Aberration)
    requires
        spec_spice_name(a) == spec_spice_name(b),
    ensures
        a == b,
{
    lemma_spice_name_roundtrip(a);
    lemma_spice_name_roundtrip(b);
}

/// The description says the three flags: it starts with `converged ` exactly
/// when the light time is converged (else `unconverged `), it names stellar
/// aberration exactly when that is corrected, and it ends with
/// ` in transmit mode` exactly in transmit mode; switching transmit mode on
/// appends exactly that ending to the description in reception mode.
pub proof fn lemma_description_flags(a: Aberration)
    ensures
        spec_description(a).len() >= 10 && (spec_description(a).take(10) == "converged "@ <==> a.converged),
        spec_description(a).len() >= 17 && (spec_description(a).skip(spec_description(a).len() - 17)
            == " in transmit mode"@ <==> a.transmit_mode),
        spec_description(flags(a.converged, a.stellar, true)) == spec_description(
            flags(a.converged, a.stellar, false),
        ) + " in transmit mode"@,
        spec_description(flags(a.converged, true, a.transmit_mode)).len() == spec_description(
            flags(a.converged, false, a.transmit_mode),
        ).len() + 12,
{
    reveal_strlit("converged ");
    reveal_strlit("unconverged ");
    reveal_strlit("light-time ");
    reveal_strlit("and stellar aberration");
    reveal_strlit("aberration");
    reveal_strlit(" in transmit mode");
    reveal_strlit("");
    let d = spec_description(a);
    let head = if a.converged { "converged "@ } else { "unconverged "@ };
    let mid = if a.stellar { "and stellar aberration"@ } else { "aberration"@ };
    let tail = if a.transmit_mode { " in transmit mode"@ } else { ""@ };
    assert(d == head + "light-time "@ + mid + tail);
    if a.converged {
        assert(d.take(10) =~= "converged "@);
    } else {
        assert(d[2] == 'c');
        assert("converged "@[2] == 'n');
    }
    if a.transmit_mode {
        assert(d.skip(d.len() - 17) =~= " in transmit mode"@);
    } else {
        assert(d[d.len() - 1] == 'n');
        assert(d.skip(d.len() - 17)[16] == 'n');
        assert(" in transmit mode"@[16] == 'e');
    }
    let r0 = flags(a.converged, a.stellar, false);
    let r1 = flags(a.converged, a.stellar, true);
    assert(spec_description(r0) + ""@ =~= spec_description(r0));
}

} // verus!
