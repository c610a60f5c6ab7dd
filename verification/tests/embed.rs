use anise::embed::AstroData;

#[test]
fn test_limited_set() {
    // Check only PCK11 is present
    assert!(AstroData::get("pck11.pca").is_some());
    assert!(AstroData::get("pck08.pca").is_none());
    // Check only one planetary ephem is present
    assert!(AstroData::get("de440s.bsp").is_some());
    assert!(AstroData::get("de440.bsp").is_none());
}
