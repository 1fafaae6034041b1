use semantic_version_parser::{
    tokenize, ComposerChecker, ParseSemVerError, SemVer, SemVerPair, SemVerPrefix, SemVerSuffix,
    ZeroPaddedInt,
};
use std::str::FromStr;

fn rendered(input: &str) -> String {
    SemVer::from_str(input).unwrap().to_string()
}

#[test]
fn tokenize_splits_on_all_three_delimiters() {
    assert_eq!(tokenize("1-2_3.4"), vec!["1", "2", "3", "4"]);
}

#[test]
fn tokenize_of_empty_text_is_empty() {
    assert_eq!(tokenize(""), Vec::<String>::new());
}

#[test]
fn tokenize_keeps_empty_chunks() {
    assert_eq!(tokenize("1..2"), vec!["1", "", "2"]);
    assert_eq!(tokenize("-"), vec!["", ""]);
}

#[test]
fn tokenize_cuts_letters_from_numbers_and_lowercases() {
    assert_eq!(
        tokenize("v2023-Nov-0027-V1"),
        vec!["v", "2023", "nov", "0027", "v", "1"]
    );
    assert_eq!(tokenize("RC5_Beta"), vec!["rc", "5", "beta"]);
    assert_eq!(tokenize("rc1beta"), vec!["rc", "1beta"]);
}

#[test]
fn tokenize_lowercases_beyond_ascii() {
    assert_eq!(tokenize("\u{c4}B-1"), vec!["\u{e4}b", "1"]);
}

#[test]
fn tokenize_cuts_before_a_numeric_character_beyond_ascii() {
    assert_eq!(
        tokenize("rc\u{661}\u{662}"),
        vec!["rc", "\u{661}\u{662}"]
    );
}

#[test]
fn parse_of_empty_text_fails() {
    assert_eq!(SemVer::from_str(""), Err(ParseSemVerError));
}

#[test]
fn parse_needs_two_tokens_after_the_lead() {
    assert!(SemVer::from_str("v").is_err());
    assert!(SemVer::from_str("1").is_err());
    assert!(SemVer::from_str("v1").is_err());
    assert!(SemVer::from_str("release").is_err());
    assert!(SemVer::from_str("release-7").is_err());
}

#[test]
fn parse_rejects_tokens_that_are_no_numbers() {
    assert!(SemVer::from_str("foo.bar.baz").is_err());
    assert!(SemVer::from_str("1.2.x").is_err());
    assert!(SemVer::from_str("1.x.3").is_err());
    assert!(SemVer::from_str("1..3").is_err());
    assert!(SemVer::from_str("\u{661}.2.3").is_err());
}

#[test]
fn parse_cuts_a_sign_from_its_digits() {
    assert_eq!(tokenize("+5.1.1"), vec!["+", "5", "1", "1"]);
    assert!(SemVer::from_str("+5.1.1").is_err());
}

#[test]
fn parse_rejects_a_suffix_number_that_is_no_number() {
    assert_eq!(SemVer::from_str("1.2.3.beta.x"), Err(ParseSemVerError));
    assert_eq!(SemVer::from_str("1.2.3.x"), Err(ParseSemVerError));
    assert_eq!(SemVer::from_str("1.2.3-beta-2147483648"), Err(ParseSemVerError));
}

#[test]
fn parse_rejects_numbers_beyond_32_bits() {
    assert!(SemVer::from_str("4294967296.0.0").is_err());
    assert_eq!(rendered("4294967295.0.0"), "4294967295.0.0");
    assert_eq!(rendered("1.2.3-beta2147483647"), "1.2.3-beta2147483647");
}

#[test]
fn parse_of_two_numbers_gets_patch_zero() {
    assert_eq!(
        SemVer::from_str("1.2"),
        Ok(SemVer {
            prefix: None,
            major: ZeroPaddedInt::new(1, 1),
            minor: ZeroPaddedInt::new(2, 1),
            patch: ZeroPaddedInt::new(0, 1),
            suffix: None
        })
    );
    assert_eq!(rendered("release-1.2"), "1.2.0");
}

#[test]
fn reads_and_writes_a_suffix_with_number() {
    let version = SemVer::from_str("1.2.3.beta.5").unwrap();
    assert_eq!(
        version,
        SemVer {
            prefix: None,
            major: ZeroPaddedInt::new(1, 1),
            minor: ZeroPaddedInt::new(2, 1),
            patch: ZeroPaddedInt::new(3, 1),
            suffix: Some(SemVerPair {
                suffix: SemVerSuffix::Beta,
                version: Some(5)
            })
        }
    );
    assert_eq!(version.to_string(), "1.2.3-beta5");
    assert_eq!(version.increment_major().to_string(), "2.2.3-beta5");
}

#[test]
fn reads_a_release_date() {
    let version = SemVer::from_str("release-2022-02-09").unwrap();
    assert_eq!(version.prefix, None);
    assert_eq!(version.major, ZeroPaddedInt::new(2022, 4));
    assert_eq!(version.minor, ZeroPaddedInt::new(2, 2));
    assert_eq!(version.patch, ZeroPaddedInt::new(9, 2));
    assert_eq!(version.suffix, None);
    assert_eq!(version.to_string(), "2022.02.09");
}

#[test]
fn reads_a_month_name_with_suffix() {
    let version = SemVer::from_str("2023-Nov-27-v1").unwrap();
    assert_eq!(version.major, ZeroPaddedInt::new(2023, 4));
    assert_eq!(version.minor, ZeroPaddedInt::new(11, 2));
    assert_eq!(version.patch, ZeroPaddedInt::new(27, 2));
    assert_eq!(
        version.suffix,
        Some(SemVerPair {
            suffix: SemVerSuffix::P,
            version: Some(1)
        })
    );
    assert_eq!(version.to_string(), "2023.11.27-p1");
}

#[test]
fn composer_accepts_the_written_form_only() {
    let checker = ComposerChecker::new().unwrap();
    assert!(checker.is_valid("2.2.3-beta5"));
    assert!(!checker.is_valid("2.2.3.beta.5"));
    assert!(!checker.is_valid("1.0.0.2"));
}

#[test]
fn increment_of_patch_keeps_the_width() {
    let version = SemVer::from_str("v2023-Nov-0027-v1").unwrap();
    assert_eq!(version.increment_patch().to_string(), "v2023.11.0028-p1");
}

#[test]
fn month_names_short_and_long_in_any_case() {
    assert_eq!(rendered("2023-jan-05"), "2023.1.05");
    assert_eq!(rendered("2023-January-05"), "2023.1.05");
    assert_eq!(rendered("2023-FEBRUARY-05"), "2023.2.05");
    assert_eq!(rendered("2023-may-05"), "2023.5.05");
    assert_eq!(rendered("2023-Sep-05"), "2023.9.05");
    assert_eq!(rendered("2023-september-05"), "2023.9.05");
    assert_eq!(rendered("2023-Dec-05"), "2023.12.05");
    assert_eq!(rendered("2023-december-05"), "2023.12.05");
}

#[test]
fn month_name_that_is_neither_short_nor_long_is_no_month() {
    assert!(SemVer::from_str("2023-septem-05").is_err());
    assert!(SemVer::from_str("2023-sept-05").is_err());
    assert!(SemVer::from_str("2023-mayday-05").is_err());
}

#[test]
fn month_name_is_replaced_in_second_place_only() {
    assert!(SemVer::from_str("Nov-2023-27").is_err());
    assert!(SemVer::from_str("2023-27-Nov").is_err());
    assert!(SemVer::from_str("1.2.3.nov").is_err());
    assert!(SemVer::from_str("1.2.3.beta.nov").is_err());
    assert!(SemVer::from_str("1.2.3.v.nov").is_err());
    assert!(SemVer::from_str("1.2.3.dec").is_err());
    assert_eq!(rendered("v2023-Nov-27"), "v2023.11.27");
    assert_eq!(rendered("release-2023-Nov-27"), "2023.11.27");
}

#[test]
fn widths_of_the_input_come_back() {
    assert_eq!(rendered("v2023-Nov-0027-v1"), "v2023.11.0027-p1");
    assert_eq!(rendered("007.08.0009"), "007.08.0009");
    assert_eq!(rendered("0.00.000"), "0.00.000");
    assert_eq!(
        SemVer::from_str("v2023-Nov-0027-v1")
            .unwrap()
            .increment_major()
            .to_string(),
        "v2024.11.0027-p1"
    );
}

#[test]
fn reading_the_text_again_gives_the_same_version() {
    let inputs = vec![
        "v1.2.3",
        "1.2",
        "2.1.0-beta1",
        "release-2022-02-09",
        "09-28-2023.1",
        "2023-11-29-v1",
        "1.0.0-alpha.0",
        "2023-Nov-27-v1",
        "v2023-Nov-0027-v1",
        "1.0.0-RC5",
        "1.0.0-dev",
        "1.2.3.beta.5.6.7",
        "V007_08.0009-Patch-12",
    ];
    for input in inputs {
        let first = SemVer::from_str(input);
        assert!(first.is_ok());
        let text = first.as_ref().unwrap().to_string();
        assert_eq!(SemVer::from_str(&text), first);
    }
}

#[test]
fn increments_change_one_number_only() {
    let version = SemVer::from_str("v2023-Nov-0027-rc4").unwrap();
    let major = version.clone().increment_major();
    assert_eq!(major.major, ZeroPaddedInt::new(2024, 4));
    assert_eq!(major.minor, version.minor);
    assert_eq!(major.patch, version.patch);
    assert_eq!(major.prefix, version.prefix);
    assert_eq!(major.suffix, version.suffix);
    let minor = version.clone().increment_minor();
    assert_eq!(minor.minor, ZeroPaddedInt::new(12, 2));
    assert_eq!(minor.major, version.major);
    assert_eq!(minor.patch, version.patch);
    assert_eq!(minor.prefix, version.prefix);
    assert_eq!(minor.suffix, version.suffix);
    let patch = version.clone().increment_patch();
    assert_eq!(patch.patch, ZeroPaddedInt::new(28, 4));
    assert_eq!(patch.major, version.major);
    assert_eq!(patch.minor, version.minor);
    assert_eq!(patch.prefix, version.prefix);
    assert_eq!(patch.suffix, version.suffix);
}

#[test]
fn prefix_is_read_in_any_case_and_written_in_lower_case() {
    assert_eq!(rendered("V1.2.3"), "v1.2.3");
    assert_eq!(
        SemVer::from_str("V1.2.3").unwrap().prefix,
        Some(SemVerPrefix::V)
    );
}

#[test]
fn suffix_markers_in_canonical_spelling() {
    assert_eq!(rendered("1.0.0-dev"), "1.0.0-dev");
    assert_eq!(rendered("1.0.0.PATCH.2"), "1.0.0-patch2");
    assert_eq!(rendered("1.0.0-p3"), "1.0.0-p3");
    assert_eq!(rendered("1.0.0-Alpha"), "1.0.0-alpha");
    assert_eq!(rendered("1.0.0-a4"), "1.0.0-a4");
    assert_eq!(rendered("1.0.0-beta"), "1.0.0-beta");
    assert_eq!(rendered("1.0.0-B1"), "1.0.0-b1");
    assert_eq!(rendered("1.0.0.rc.2"), "1.0.0-RC2");
}

#[test]
fn every_suffix_marker_is_read_and_written() {
    let markers = vec![
        (SemVerSuffix::Dev, "dev"),
        (SemVerSuffix::Patch, "patch"),
        (SemVerSuffix::P, "p"),
        (SemVerSuffix::Alpha, "alpha"),
        (SemVerSuffix::A, "a"),
        (SemVerSuffix::Beta, "beta"),
        (SemVerSuffix::B, "b"),
        (SemVerSuffix::RC, "RC"),
    ];
    for (marker, text) in markers {
        assert_eq!(marker.to_string(), text);
        assert_eq!(marker.as_str(), text);
        assert_eq!(SemVerSuffix::from_str(text), Ok(marker));
        assert_eq!(SemVerSuffix::from_str(&text.to_uppercase()), Ok(marker));
        assert_eq!(SemVerSuffix::from_str(&text.to_lowercase()), Ok(marker));
    }
    assert_eq!(SemVerSuffix::from_str("gamma"), Err(ParseSemVerError));
    assert_eq!(SemVerSuffix::from_str(""), Err(ParseSemVerError));
    assert_eq!(SemVerSuffix::default(), SemVerSuffix::P);
}

#[test]
fn a_lone_v_before_the_suffix_number_is_dropped() {
    assert_eq!(rendered("2023-11-29-v1"), "2023.11.29-p1");
    assert_eq!(rendered("2023-11-29-v"), "2023.11.29");
}

#[test]
fn tokens_after_the_suffix_are_ignored() {
    assert_eq!(rendered("1.2.3.beta.5.6.7"), "1.2.3-beta5");
    assert_eq!(rendered("1.2.3.4.x"), "1.2.3-p4");
}

#[test]
fn zero_padded_int_natural_width() {
    assert_eq!(ZeroPaddedInt::from(0), ZeroPaddedInt::new(0, 1));
    assert_eq!(ZeroPaddedInt::from(9), ZeroPaddedInt::new(9, 1));
    assert_eq!(ZeroPaddedInt::from(10), ZeroPaddedInt::new(10, 2));
    assert_eq!(ZeroPaddedInt::from(4294967295), ZeroPaddedInt::new(4294967295, 10));
}

#[test]
fn zero_padded_int_reads_sign_and_digits() {
    assert_eq!(ZeroPaddedInt::from_str("007"), Ok(ZeroPaddedInt::new(7, 3)));
    assert_eq!(ZeroPaddedInt::from_str("+5"), Ok(ZeroPaddedInt::new(5, 2)));
    assert_eq!(ZeroPaddedInt::from_str("00000000000000000001"), Ok(ZeroPaddedInt::new(1, 20)));
    assert_eq!(ZeroPaddedInt::from_str(""), Err(ParseSemVerError));
    assert_eq!(ZeroPaddedInt::from_str("+"), Err(ParseSemVerError));
    assert_eq!(ZeroPaddedInt::from_str("-5"), Err(ParseSemVerError));
    assert_eq!(ZeroPaddedInt::from_str("5a"), Err(ParseSemVerError));
    assert_eq!(ZeroPaddedInt::from_str(" 5"), Err(ParseSemVerError));
    assert_eq!(ZeroPaddedInt::from_str("4294967296"), Err(ParseSemVerError));
}

#[test]
fn zero_padded_int_agrees_with_std() {
    let tokens = vec!["0", "007", "+5", "", "+", "-5", "5a", "4294967295", "4294967296", "1_0"];
    for token in tokens {
        let expected = token.parse::<u32>().ok();
        let got = ZeroPaddedInt::from_str(token).ok().map(|number| number.value);
        assert_eq!(got, expected);
    }
}

#[test]
fn zero_padded_int_writes_zeros_up_to_the_width() {
    assert_eq!(ZeroPaddedInt::new(7, 3).to_string(), "007");
    assert_eq!(ZeroPaddedInt::new(7, 1).to_string(), "7");
    assert_eq!(ZeroPaddedInt::new(7, 0).to_string(), "7");
    assert_eq!(ZeroPaddedInt::new(0, 2).to_string(), "00");
    assert_eq!(ZeroPaddedInt::new(100, 2).to_string(), "100");
    assert_eq!(ZeroPaddedInt::new(99, 3).add(1).to_string(), "100");
    assert_eq!(ZeroPaddedInt::new(99, 2).add(1), ZeroPaddedInt::new(100, 2));
    assert_eq!(ZeroPaddedInt::from_str("+5").unwrap().to_string(), "05");
}

#[test]
fn negative_suffix_number_is_written_with_its_sign() {
    let version = SemVer {
        prefix: None,
        major: ZeroPaddedInt::from(1),
        minor: ZeroPaddedInt::from(0),
        patch: ZeroPaddedInt::from(0),
        suffix: Some(SemVerPair {
            suffix: SemVerSuffix::P,
            version: Some(-2147483648),
        }),
    };
    assert_eq!(version.to_string(), "1.0.0-p-2147483648");
}

#[test]
fn parse_through_str_parse() {
    assert_eq!("v1.2.3".parse::<SemVer>(), SemVer::from_str("v1.2.3"));
    assert_eq!("007".parse::<ZeroPaddedInt>(), Ok(ZeroPaddedInt::new(7, 3)));
    assert_eq!("Beta".parse::<SemVerSuffix>(), Ok(SemVerSuffix::Beta));
    assert_eq!("V".parse::<SemVerPrefix>(), Ok(SemVerPrefix::V));
    assert!("x".parse::<SemVer>().is_err());
}

#[test]
fn composer_accepts_dev_with_digits() {
    let checker = ComposerChecker::new().unwrap();
    assert!(checker.is_valid("1.0.0-dev123"));
    assert!(checker.is_valid("1.0.0-d1"));
    assert!(!checker.is_valid("1.0.0-rc1"));
    assert!(!checker.is_valid(""));
    assert!(!checker.is_valid("1.0.0\n"));
}

#[test]
fn composer_accepts_what_the_parser_writes() {
    let checker = ComposerChecker::new().unwrap();
    let inputs = vec![
        "v1.2.3",
        "2.1.0-beta1",
        "release-2022-02-09",
        "09-28-2023.1",
        "2023-11-29-v1",
        "1.0.0-alpha.0",
        "v2023-Nov-0027-v1",
        "1.0.0.rc.2",
    ];
    for input in inputs {
        assert!(checker.is_valid(&rendered(input)));
    }
}

#[test]
fn checker_from_a_pattern_that_does_not_compile() {
    assert!(ComposerChecker::from_pattern("(").is_err());
    assert!(ComposerChecker::from_pattern("a{2,1}").is_err());
}

#[test]
fn checker_from_another_pattern() {
    let checker = ComposerChecker::from_pattern("^a+$").unwrap();
    assert!(checker.is_valid("aaa"));
    assert!(!checker.is_valid("AAA"));
    assert!(!checker.is_valid("1.2.3"));
}
