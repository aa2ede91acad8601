use roman_numerals::{to_arabic, to_roman, ErrorKind};

#[test]
fn round_trip_full_range() {
    let mut n: u32 = 1;
    while n <= 3999 {
        assert_eq!(to_arabic(to_roman(n)), Ok(n as i32));
        n += 1;
    }
}

#[test]
fn zero_encodes_to_empty_string() {
    assert_eq!(to_roman(0), "");
}

#[test]
fn values_above_range_encode_as_repeated_m() {
    assert_eq!(to_roman(4000), "MMMM");
    assert_eq!(to_roman(4999), "MMMMCMXCIX");
}

#[test]
fn accepted_numerals_have_exact_values() {
    assert_eq!(to_arabic(String::from("MCMXCIV")), Ok(1994));
    assert_eq!(to_arabic(String::from("MMXXIII")), Ok(2023));
    assert_eq!(to_arabic(String::from("LVIII")), Ok(58));
    assert_eq!(to_arabic(String::from("MMMCMXCIX")), Ok(3999));
    assert_eq!(to_arabic(String::from("XIII")), Ok(13));
}

#[test]
fn empty_input_is_reported() {
    assert_eq!(to_arabic(String::from("")), Err(ErrorKind::EmptyInput));
}

#[test]
fn unknown_symbols_are_reported() {
    assert_eq!(to_arabic(String::from("IIA")), Err(ErrorKind::UnknownSymbol));
    assert_eq!(to_arabic(String::from("mcmxciv")), Err(ErrorKind::UnknownSymbol));
    assert_eq!(to_arabic(String::from("X Y")), Err(ErrorKind::UnknownSymbol));
    assert_eq!(to_arabic(String::from("IIIx")), Err(ErrorKind::UnknownSymbol));
}

#[test]
fn illegal_subtractive_pairs_are_reported() {
    assert_eq!(to_arabic(String::from("IC")), Err(ErrorKind::InvalidSubtractivePair));
    assert_eq!(to_arabic(String::from("IL")), Err(ErrorKind::InvalidSubtractivePair));
    assert_eq!(to_arabic(String::from("ID")), Err(ErrorKind::InvalidSubtractivePair));
    assert_eq!(to_arabic(String::from("IM")), Err(ErrorKind::InvalidSubtractivePair));
    assert_eq!(to_arabic(String::from("XD")), Err(ErrorKind::InvalidSubtractivePair));
    assert_eq!(to_arabic(String::from("XM")), Err(ErrorKind::InvalidSubtractivePair));
    assert_eq!(to_arabic(String::from("VX")), Err(ErrorKind::InvalidSubtractivePair));
    assert_eq!(to_arabic(String::from("DM")), Err(ErrorKind::InvalidSubtractivePair));
}

#[test]
fn rising_groups_are_an_order_violation() {
    assert_eq!(to_arabic(String::from("IIIX")), Err(ErrorKind::OrderViolation));
    assert_eq!(to_arabic(String::from("XCC")), Err(ErrorKind::OrderViolation));
}

#[test]
fn symbol_between_pair_components_is_a_conflict() {
    assert_eq!(to_arabic(String::from("MCMD")), Err(ErrorKind::AdjacentSubtractiveConflict));
}

#[test]
fn subtracted_symbol_cannot_follow_its_pair() {
    assert_eq!(to_arabic(String::from("IXI")), Err(ErrorKind::RepeatedAfterSubtraction));
    assert_eq!(to_arabic(String::from("IVI")), Err(ErrorKind::RepeatedAfterSubtraction));
}

#[test]
fn repeat_limits_are_enforced() {
    assert_eq!(to_arabic(String::from("IIII")), Err(ErrorKind::TooManyRepeats));
    assert_eq!(to_arabic(String::from("XXXX")), Err(ErrorKind::TooManyRepeats));
    assert_eq!(to_arabic(String::from("CCCC")), Err(ErrorKind::TooManyRepeats));
    assert_eq!(to_arabic(String::from("MMMM")), Err(ErrorKind::TooManyRepeats));
    assert_eq!(to_arabic(String::from("VV")), Err(ErrorKind::TooManyRepeats));
    assert_eq!(to_arabic(String::from("LL")), Err(ErrorKind::TooManyRepeats));
    assert_eq!(to_arabic(String::from("DD")), Err(ErrorKind::TooManyRepeats));
}

#[test]
fn equal_valued_subtractive_pairs_may_repeat() {
    assert_eq!(to_arabic(String::from("XCXC")), Ok(180));
    assert_eq!(to_arabic(String::from("CMCM")), Ok(1800));
}
