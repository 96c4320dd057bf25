//! Cross-checks of the library's version grammar and ordering against the
//! semver crate, on the release grammar the library models (no pre-release
//! or build suffixes).

use verylup::req::VersionReq;
use verylup::version::Version;

const GOOD: &[&str] = &[
    "0.0.0",
    "0.0.1",
    "0.16.2",
    "1.0.0",
    "1.2.3",
    "10.200.3000",
    "9999.0.1",
    "18446744073709551615.0.0",
];

const BAD: &[&str] = &["", "1", "1.2", "1.2.3.4", "01.0.0", "1.02.0", "1.2.x", "a.b.c"];

#[test]
fn parse_agrees_with_semver() {
    for text in GOOD {
        let mine = Version::parse(text).expect("library rejects a good version");
        let theirs = semver::Version::parse(text).expect("semver rejects a good version");
        assert_eq!(mine.major, theirs.major);
        assert_eq!(mine.minor, theirs.minor);
        assert_eq!(mine.patch, theirs.patch);
        assert_eq!(mine.to_text(), theirs.to_string());
    }
    for text in BAD {
        assert!(Version::parse(text).is_err(), "library accepts {}", text);
        assert!(
            semver::Version::parse(text).is_err(),
            "semver accepts {}",
            text
        );
    }
}

#[test]
fn ordering_agrees_with_semver() {
    for a in GOOD {
        for b in GOOD {
            let ma = Version::parse(a).unwrap();
            let mb = Version::parse(b).unwrap();
            let sa = semver::Version::parse(a).unwrap();
            let sb = semver::Version::parse(b).unwrap();
            assert_eq!(ma.compare(&mb), sa.cmp(&sb), "{} vs {}", a, b);
        }
    }
}

#[test]
fn range_matching_agrees_with_semver() {
    let reqs = &[
        "0.16", "^0.16", "=1.2.3", "=1.2", "=1", ">=1.2", ">1.2", ">1.2.3", "<2", "<=0.16",
        "~1.2.3", "~1.2", "~1", "*", "^0.0.3", "^0.16.1", "1", "2.0.0",
    ];
    for req_text in reqs {
        let mine = VersionReq::parse(req_text).expect("library rejects a good range");
        let theirs = semver::VersionReq::parse(req_text).expect("semver rejects a good range");
        for v_text in GOOD {
            let mv = Version::parse(v_text).unwrap();
            let sv = semver::Version::parse(v_text).unwrap();
            assert_eq!(
                mine.matches(&mv),
                theirs.matches(&sv),
                "range {} on {}",
                req_text,
                v_text
            );
        }
    }
}

#[test]
fn range_parse_rejects_garbage() {
    for text in &["", "+1.2", "= 1.2", "x", ">=", "1.2.3.4", "**", "1.*"] {
        assert!(VersionReq::parse(text).is_err(), "library accepts {}", text);
    }
}
