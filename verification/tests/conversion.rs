use roman_numerals::{to_arabic, to_roman};

#[test]
fn test_to_roman() {
    assert_eq!(to_roman(3), "III");
    assert_eq!(to_roman(4), "IV");
    assert_eq!(to_roman(9), "IX");
    assert_eq!(to_roman(58), "LVIII");
    assert_eq!(to_roman(1974), "MCMLXXIV");
    assert_eq!(to_roman(1994), "MCMXCIV");
    assert_eq!(to_roman(1996), "MCMXCVI");
    assert_eq!(to_roman(1997), "MCMXCVII");
    assert_eq!(to_roman(1998), "MCMXCVIII");
    assert_eq!(to_roman(1999), "MCMXCIX");
    assert_eq!(to_roman(2014), "MMXIV");
    assert_eq!(to_roman(2015), "MMXV");
    assert_eq!(to_roman(2023), "MMXXIII");
    assert_eq!(to_roman(0), "", "Test for input 0");
    assert_eq!(to_roman(3999), "MMMCMXCIX", "Test for input 3999");
}

#[test]
fn test_to_arabic() {
    assert_eq!(to_arabic(String::from("I")), Ok(1));
    assert_eq!(to_arabic(String::from("III")), Ok(3));
    assert_eq!(to_arabic(String::from("IV")), Ok(4));
    assert_eq!(to_arabic(String::from("IX")), Ok(9));
    assert_eq!(to_arabic(String::from("LVIII")), Ok(58));
    assert_eq!(to_arabic(String::from("MCMXCIV")), Ok(1994));
    assert_eq!(to_arabic(String::from("MCMXCVI")), Ok(1996));
    assert_eq!(to_arabic(String::from("MCMXCVII")), Ok(1997));
    assert_eq!(to_arabic(String::from("MCMXCVIII")), Ok(1998));
    assert_eq!(to_arabic(String::from("MCMXCIX")), Ok(1999));
    assert_eq!(to_arabic(String::from("MMXIV")), Ok(2014));
    assert_eq!(to_arabic(String::from("MMXV")), Ok(2015));
    assert_eq!(to_arabic(String::from("MMMCMXCIX")), Ok(3999));
    assert_eq!(to_arabic(String::from("MDCCCLXXXVIII")), Ok(1888));
    assert_eq!(to_arabic(String::from("D")), Ok(500));
    assert_eq!(to_arabic(String::from("C")), Ok(100));
    assert_eq!(to_arabic(String::from("L")), Ok(50));
    assert_eq!(to_arabic(String::from("X")), Ok(10));
    assert_eq!(to_arabic(String::from("V")), Ok(5));
    assert!(
        to_arabic(String::from("IIIX")).is_err(),
        "IIIX should be an error due to order violation"
    );
    assert_eq!(to_arabic(String::from("XIII")), Ok(13));

    assert!(to_arabic(String::from("")).is_err(), "Empty string should be an error");
    assert!(to_arabic(String::from("mcmxciv")).is_err(), "Lowercase 'm' should be an error");
    assert!(to_arabic(String::from("IIIx")).is_err(), "Lowercase 'x' should be an error");
    assert!(to_arabic(String::from("IIA")).is_err(), "Invalid character 'A'");
    assert!(to_arabic(String::from("X Y")).is_err(), "Space is an invalid character");

    assert!(to_arabic(String::from("IIII")).is_err(), "IIII is invalid");
    assert!(to_arabic(String::from("VV")).is_err(), "VV is invalid");
    assert!(to_arabic(String::from("IC")).is_err(), "IC is invalid");
    assert!(to_arabic(String::from("IL")).is_err(), "IL is invalid");
    assert!(to_arabic(String::from("ID")).is_err(), "ID is invalid");
    assert!(to_arabic(String::from("IM")).is_err(), "IM is invalid");
    assert!(to_arabic(String::from("XD")).is_err(), "XD is invalid");
    assert!(to_arabic(String::from("XM")).is_err(), "XM is invalid");
    assert!(to_arabic(String::from("VX")).is_err(), "VX is invalid");
    assert!(to_arabic(String::from("VL")).is_err(), "VL is invalid");
    assert!(to_arabic(String::from("VC")).is_err(), "VC is invalid");
    assert!(to_arabic(String::from("VD")).is_err(), "VD is invalid");
    assert!(to_arabic(String::from("VM")).is_err(), "VM is invalid");
    assert!(to_arabic(String::from("LC")).is_err(), "LC is invalid");
    assert!(to_arabic(String::from("LD")).is_err(), "LD is invalid");
    assert!(to_arabic(String::from("LM")).is_err(), "LM is invalid");
    assert!(to_arabic(String::from("DM")).is_err(), "DM is invalid");
    assert!(to_arabic(String::from("IXI")).is_err(), "IXI is invalid");
    assert!(to_arabic(String::from("IVI")).is_err(), "IVI is invalid");
    assert!(to_arabic(String::from("MCMD")).is_err(), "MCMD is invalid");
    assert!(to_arabic(String::from("CCCC")).is_err(), "CCCC is invalid");
    assert!(to_arabic(String::from("XXXX")).is_err(), "XXXX is invalid");
}
