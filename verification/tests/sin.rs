use canada_sin::{SINParseError, SINType, SIN};
use canada_sin::SINType::{
    Alberta, BritishColumbia, BusinessNumber, CRAAssigned, Manitoba, NewBrunswick,
    NewfoundlandLabrador, NorthwestTerritories, NovaScotia, Nunavut, Ontario, OverseasForces,
    PrinceEdwardIsland, Quebec, Saskatchewan, TemporaryResident, Yukon,
};

#[test]
fn parse_sin_checks_luhn() {
    assert_eq!(
        SIN::parse("123456789".to_string()),
        Err(SINParseError::InvalidChecksum)
    );
    assert_eq!(
        SIN::parse("425453457".to_string()),
        Err(SINParseError::InvalidChecksum)
    );
    assert_eq!(
        SIN::parse("759268676".to_string()),
        Err(SINParseError::InvalidChecksum)
    );
    assert_eq!(
        SIN::parse("635563453".to_string()),
        Err(SINParseError::InvalidChecksum)
    );
    // make sure this doesn't cause an overflow
    assert_eq!(
        SIN::parse("999999999".to_string()),
        Err(SINParseError::InvalidChecksum)
    );
    assert!(SIN::parse("046454286".to_string()).is_ok());
    assert!(SIN::parse("000000000".to_string()).is_ok());
}

#[test]
fn parse_sin_checks_too_short() {
    assert_eq!(
        SIN::parse("12345678".to_string()),
        Err(SINParseError::TooShort)
    );
    assert_eq!(SIN::parse("123".to_string()), Err(SINParseError::TooShort));
    assert_eq!(SIN::parse("0".to_string()), Err(SINParseError::TooShort));
    assert_eq!(SIN::parse("".to_string()), Err(SINParseError::TooShort));
}

#[test]
fn parse_sin_checks_too_long() {
    assert_eq!(
        SIN::parse("0000000000".to_string()),
        Err(SINParseError::TooLong)
    );
    assert_eq!(
        SIN::parse("4324234237".to_string()),
        Err(SINParseError::TooLong)
    );
    assert_eq!(
        SIN::parse("635462452452344343".to_string()),
        Err(SINParseError::TooLong)
    );
    assert_eq!(
        SIN::parse("999999999999999999999999999".to_string()),
        Err(SINParseError::TooLong)
    );
    assert_eq!(
        SIN::parse("000000000000000000000000000".to_string()),
        Err(SINParseError::TooLong)
    );
    assert_eq!(
        SIN::parse("543537672346234345464254235".to_string()),
        Err(SINParseError::TooLong)
    );
}

#[test]
fn digits_string() {
    let sin = SIN::parse("000-000-000".to_string()).unwrap();
    assert_eq!(sin.digits_string(), "000000000");
    let sin = SIN::parse("999999998".to_string()).unwrap();
    assert_eq!(sin.digits_string(), "999999998");
}

#[test]
fn digits_dashed_string() {
    let sin = SIN::parse("000-000-000".to_string()).unwrap();
    assert_eq!(sin.digits_dashed_string(), "000-000-000");
    let sin = SIN::parse("999999998".to_string()).unwrap();
    assert_eq!(sin.digits_dashed_string(), "999-999-998");
}

#[test]
fn separators_are_tolerated() {
    let dashed = SIN::parse("046-454-286".to_string()).unwrap();
    let plain = SIN::parse("046454286".to_string()).unwrap();
    assert_eq!(dashed, plain);
    let spaced = SIN::parse(" 046 454 286 ".to_string()).unwrap();
    assert_eq!(spaced, plain);
    let lettered = SIN::parse("sin: 046454286!".to_string()).unwrap();
    assert_eq!(lettered, plain);
}

#[test]
fn render_then_parse_round_trips() {
    let sin = SIN::parse("046454286".to_string()).unwrap();
    let again = SIN::parse(sin.digits_string()).unwrap();
    assert_eq!(sin, again);
    let dashed_again = SIN::parse(sin.digits_dashed_string()).unwrap();
    assert_eq!(sin, dashed_again);
}

#[test]
fn digits_returns_the_parsed_digits() {
    let sin = SIN::parse("046454286".to_string()).unwrap();
    assert_eq!(sin.digits(), [0, 4, 6, 4, 5, 4, 2, 8, 6]);
    assert_eq!(sin.digits_dashed_string(), "046-454-286");
}

#[test]
fn classify_covers_every_leading_digit() {
    // one valid SIN per leading digit: the last digit balances the sum
    let cases: Vec<(&str, Vec<SINType>)> = vec![
        ("000000000", vec![CRAAssigned]),
        (
            "100000009",
            vec![NovaScotia, NewBrunswick, PrinceEdwardIsland, NewfoundlandLabrador],
        ),
        ("200000008", vec![Quebec]),
        ("300000007", vec![Quebec]),
        ("400000006", vec![Ontario, OverseasForces]),
        ("500000005", vec![Ontario, OverseasForces]),
        (
            "600000004",
            vec![Ontario, Manitoba, Saskatchewan, Alberta, NorthwestTerritories, Nunavut],
        ),
        ("700000003", vec![BritishColumbia, Yukon, BusinessNumber]),
        ("800000002", vec![BusinessNumber]),
        ("900000001", vec![TemporaryResident]),
    ];
    for (input, expected) in cases {
        let sin = SIN::parse(input.to_string()).unwrap();
        let types = sin.types();
        assert!(!types.is_empty());
        assert_eq!(types, expected);
    }
}

#[test]
fn quebec_is_unambiguous() {
    let sin = SIN::parse("346454382".to_string()).unwrap();
    assert_eq!(sin.types(), vec![SINType::Quebec]);
}

#[test]
fn business_numbers_share_leading_seven() {
    let sin = SIN::parse("734323843".to_string()).unwrap();
    assert_eq!(
        sin.types(),
        vec![SINType::BritishColumbia, SINType::Yukon, SINType::BusinessNumber]
    );
}

#[test]
fn province_facet_marks_the_geographic_tags() {
    let provinces = vec![
        Alberta,
        BritishColumbia,
        Manitoba,
        NewBrunswick,
        NewfoundlandLabrador,
        NorthwestTerritories,
        NovaScotia,
        Nunavut,
        Ontario,
        PrinceEdwardIsland,
        Quebec,
        Saskatchewan,
        Yukon,
    ];
    for tag in provinces {
        assert!(tag.is_province());
    }
    let special = vec![CRAAssigned, TemporaryResident, BusinessNumber, OverseasForces];
    for tag in special {
        assert!(!tag.is_province());
    }
}

#[test]
fn only_business_numbers_are_non_human() {
    assert!(!BusinessNumber.is_human());
    let human = vec![
        CRAAssigned,
        TemporaryResident,
        OverseasForces,
        Alberta,
        BritishColumbia,
        Manitoba,
        NewBrunswick,
        NewfoundlandLabrador,
        NorthwestTerritories,
        NovaScotia,
        Nunavut,
        Ontario,
        PrinceEdwardIsland,
        Quebec,
        Saskatchewan,
        Yukon,
    ];
    for tag in human {
        assert!(tag.is_human());
    }
}

#[test]
fn all_zeros_pass_the_checksum() {
    let sin = SIN::parse("000000000".to_string()).unwrap();
    assert_eq!(sin.digits(), [0; 9]);
    assert_eq!(sin.digits_string(), "000000000");
}
