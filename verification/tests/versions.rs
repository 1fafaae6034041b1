use chrono::Month;
use semantic_version_parser::{
    split_alpha_and_number, ComposerChecker, SemVer, SemVerPair, SemVerPrefix, SemVerSuffix,
    ZeroPaddedInt,
};
use std::str::FromStr;

#[test]
fn composer_valid_strings() {
    let checker = ComposerChecker::new().unwrap();
    assert!(checker.is_valid("1.2.3"));
    assert!(checker.is_valid("v1.2.3"));
    assert!(checker.is_valid("v1.2.3"));

    let official_examples = vec![
        "1.0.0",
        "1.0.2",
        "1.1.0",
        "0.2.5",
        "1.0.0-dev",
        "1.0.0-alpha3",
        "1.0.0-beta2",
        "1.0.0-RC5",
        "v2.0.4-p1",
    ];
    for example in official_examples {
        assert!(checker.is_valid(example));
    }

    assert!(!checker.is_valid("release1.2.3"));
    assert!(!checker.is_valid("1.2.3.4"));
    assert!(!checker.is_valid("1.2.3-dev.1"));
    assert!(!checker.is_valid("1.2.3-foobar"));
}

#[test]
fn semantic_version_prefix_parsing() {
    assert_eq!(SemVerPrefix::from_str("V"), Ok(SemVerPrefix::V));
    assert_eq!(SemVerPrefix::from_str("v"), Ok(SemVerPrefix::V));
    assert!(SemVerPrefix::from_str("RC").is_err());
    assert_eq!(SemVerPrefix::V.to_string(), "v".to_string());
}

#[test]
fn semantic_version_suffix_parsing() {
    assert_eq!(SemVerSuffix::from_str("BETA"), Ok(SemVerSuffix::Beta));
    assert_eq!(SemVerSuffix::from_str("b"), Ok(SemVerSuffix::B));
    assert_eq!(SemVerSuffix::from_str("RC"), Ok(SemVerSuffix::RC));
    assert_eq!(SemVerSuffix::B.to_string(), "b");
    assert_eq!(SemVerSuffix::RC.to_string(), "RC");
}

#[test]
fn alpha_and_number_parts() {
    assert_eq!(split_alpha_and_number("rc123"), vec!["rc", "123"]);
    assert_eq!(split_alpha_and_number("test"), vec!["test"]);
    assert_eq!(split_alpha_and_number("123"), vec!["123"]);
    assert_eq!(split_alpha_and_number("rc1beta"), vec!["rc", "1beta"]);
}

#[test]
fn chrono_month_parsing() {
    assert_eq!("Feb".parse::<Month>(), Ok(Month::February));
    assert_eq!("Nov".parse::<Month>(), Ok(Month::November));
    assert_eq!("nov".parse::<Month>(), Ok(Month::November));
}

#[test]
fn parse_valid_semantic_versions() {
    assert_eq!(
        SemVer::from_str("v1.2.3"),
        Ok(SemVer {
            prefix: Some(SemVerPrefix::V),
            major: ZeroPaddedInt::from(1),
            minor: ZeroPaddedInt::from(2),
            patch: ZeroPaddedInt::from(3),
            suffix: None
        })
    );
    assert_eq!(
        SemVer::from_str("2.1.0-beta1"),
        Ok(SemVer {
            prefix: None,
            major: ZeroPaddedInt::from(2),
            minor: ZeroPaddedInt::from(1),
            patch: ZeroPaddedInt::from(0),
            suffix: Some(SemVerPair {
                suffix: SemVerSuffix::Beta,
                version: Some(1)
            })
        })
    );
    assert_eq!(
        SemVer::from_str("release-2022-02-09"),
        Ok(SemVer {
            prefix: None,
            major: ZeroPaddedInt::from(2022),
            minor: ZeroPaddedInt::new(2, 2),
            patch: ZeroPaddedInt::new(9, 2),
            suffix: None
        })
    );
    assert_eq!(
        SemVer::from_str("09-28-2023.1"),
        Ok(SemVer {
            prefix: None,
            major: ZeroPaddedInt::new(9, 2),
            minor: ZeroPaddedInt::from(28),
            patch: ZeroPaddedInt::from(2023),
            suffix: Some(SemVerPair {
                suffix: SemVerSuffix::P,
                version: Some(1)
            })
        })
    );
    assert_eq!(
        SemVer::from_str("2023-11-29-v1"),
        Ok(SemVer {
            prefix: None,
            major: ZeroPaddedInt::from(2023),
            minor: ZeroPaddedInt::from(11),
            patch: ZeroPaddedInt::from(29),
            suffix: Some(SemVerPair {
                suffix: SemVerSuffix::P,
                version: Some(1)
            })
        })
    );
    assert_eq!(
        SemVer::from_str("1.0.0-alpha.0"),
        Ok(SemVer {
            prefix: None,
            major: ZeroPaddedInt::from(1),
            minor: ZeroPaddedInt::from(0),
            patch: ZeroPaddedInt::from(0),
            suffix: Some(SemVerPair {
                suffix: SemVerSuffix::Alpha,
                version: Some(0)
            })
        })
    );

    assert_eq!(
        SemVer::from_str("2023-Nov-27-v1"),
        Ok(SemVer {
            prefix: None,
            major: ZeroPaddedInt::from(2023),
            minor: ZeroPaddedInt::from(11),
            patch: ZeroPaddedInt::from(27),
            suffix: Some(SemVerPair {
                suffix: SemVerSuffix::P,
                version: Some(1)
            })
        })
    );
}

#[test]
fn output_format_with_month_name() {
    let semver = SemVer::from_str("v2023-Nov-27-v1").unwrap();
    assert_eq!(semver.to_string(), "v2023.11.27-p1");
}

#[test]
fn increment_version() {
    let semver = SemVer::from_str("v2023-Nov-0027-v1").unwrap();
    assert_eq!(
        semver.to_owned().increment_major().to_string(),
        "v2024.11.0027-p1"
    );
    assert_eq!(
        semver.to_owned().increment_minor().to_string(),
        "v2023.12.0027-p1"
    );
    assert_eq!(
        semver.to_owned().increment_patch().to_string(),
        "v2023.11.0028-p1"
    );
}
