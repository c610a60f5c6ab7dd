use anise::almanac::Almanac;
use anise::errors::AnalysisError;
use anise::report::{ScalarsAtEpoch, ScalarsRow, NAN_BITS, NEG_INFINITY_BITS};

fn at(epoch: i128, values: Option<Vec<(&str, Option<f64>)>>) -> ScalarsAtEpoch {
    ScalarsAtEpoch {
        epoch,
        values: values.map(|v| v.into_iter().map(|(k, x)| (k.to_string(), x.map(f64::to_bits))).collect()),
    }
}

#[test]
fn placeholder_bits() {
    assert_eq!(NAN_BITS, f64::NAN.to_bits());
    assert_eq!(NEG_INFINITY_BITS, f64::NEG_INFINITY.to_bits());
}

#[test]
fn report_table_sorts_headers_and_rows() {
    let data = vec![
        at(30, Some(vec![("sma", Some(7000.0)), ("ecc", Some(0.1))])),
        at(10, Some(vec![("ecc", Some(0.2)), ("sma", None)])),
        at(20, None),
    ];
    let table = Almanac::report_scalars_flat(data, "spec".to_string()).unwrap();
    assert_eq!(table.headers, vec!["ecc", "sma"]);
    assert_eq!(
        table.rows,
        vec![
            ScalarsRow { epoch: 10, values: vec![0.2f64.to_bits(), NAN_BITS] },
            ScalarsRow { epoch: 20, values: vec![NEG_INFINITY_BITS, NEG_INFINITY_BITS] },
            ScalarsRow { epoch: 30, values: vec![0.1f64.to_bits(), 7000.0f64.to_bits()] },
        ]
    );
}

#[test]
fn report_table_edge_cases() {
    let empty = Almanac::report_scalars_flat(vec![], "spec".to_string()).unwrap();
    assert!(empty.headers.is_empty());
    assert!(empty.rows.is_empty());

    let failed = Almanac::report_scalars_flat(vec![at(1, None), at(2, None)], "Moon J2000".to_string());
    assert_eq!(failed, Err(AnalysisError::AllScalarsFailed { spec: "Moon J2000".to_string() }));

    // Names are ordered by their characters, upper case before lower case.
    let data = vec![at(0, Some(vec![("b", Some(1.0)), ("B", Some(2.0)), ("ab", Some(3.0)), ("a", Some(4.0))]))];
    let table = Almanac::report_scalars_flat(data, "s".to_string()).unwrap();
    assert_eq!(table.headers, vec!["B", "a", "ab", "b"]);
    assert_eq!(
        table.rows[0].values,
        vec![2.0f64.to_bits(), 4.0f64.to_bits(), 3.0f64.to_bits(), 1.0f64.to_bits()]
    );
}

#[test]
fn later_epochs_may_hold_more_names() {
    let data = vec![
        at(1, Some(vec![("a", Some(1.0))])),
        at(2, Some(vec![("b", Some(5.0)), ("a", Some(2.0))])),
    ];
    let table = Almanac::report_scalars_flat(data, "s".to_string()).unwrap();
    assert_eq!(table.headers, vec!["a"]);
    assert_eq!(table.rows[1].values, vec![2.0f64.to_bits()]);
}
