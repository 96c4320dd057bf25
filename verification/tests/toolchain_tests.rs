use verylup::error::Error;
use verylup::toolchain::{tool_names, toolchains_from_names, ToolChain};
use verylup::version::Version;

fn ver(major: u64, minor: u64, patch: u64) -> Version {
    Version { major, minor, patch }
}

#[test]
fn order_is_strict_total_on_samples() {
    let samples = vec![
        ToolChain::Version(ver(0, 1, 0)),
        ToolChain::Version(ver(1, 0, 0)),
        ToolChain::Version(ver(1, 0, 1)),
        ToolChain::Version(ver(1, 2, 0)),
        ToolChain::Version(ver(2, 0, 0)),
        ToolChain::Latest,
        ToolChain::Nightly,
        ToolChain::Local,
    ];
    for a in &samples {
        assert_eq!(a.compare(a), std::cmp::Ordering::Equal);
        for b in &samples {
            let ab = a.compare(b);
            let ba = b.compare(a);
            // antisymmetry and totality
            match ab {
                std::cmp::Ordering::Less => assert_eq!(ba, std::cmp::Ordering::Greater),
                std::cmp::Ordering::Equal => {
                    assert_eq!(ba, std::cmp::Ordering::Equal);
                    assert_eq!(a, b);
                }
                std::cmp::Ordering::Greater => assert_eq!(ba, std::cmp::Ordering::Less),
            }
            for c in &samples {
                // transitivity
                if a.compare(b) == std::cmp::Ordering::Less
                    && b.compare(c) == std::cmp::Ordering::Less
                {
                    assert_eq!(a.compare(c), std::cmp::Ordering::Less);
                }
            }
        }
    }
}

#[test]
fn variant_precedence() {
    let v = ToolChain::Version(ver(9999, 9999, 9999));
    assert_eq!(v.compare(&ToolChain::Latest), std::cmp::Ordering::Less);
    assert_eq!(
        ToolChain::Latest.compare(&ToolChain::Nightly),
        std::cmp::Ordering::Less
    );
    assert_eq!(
        ToolChain::Nightly.compare(&ToolChain::Local),
        std::cmp::Ordering::Less
    );
    assert_eq!(
        ToolChain::Local.compare(&ToolChain::Version(ver(0, 0, 1))),
        std::cmp::Ordering::Greater
    );
}

#[test]
fn version_precedence() {
    assert_eq!(
        ver(1, 0, 0).compare(&ver(2, 0, 0)),
        std::cmp::Ordering::Less
    );
    assert_eq!(
        ver(1, 9, 9).compare(&ver(2, 0, 0)),
        std::cmp::Ordering::Less
    );
    assert_eq!(
        ver(1, 2, 3).compare(&ver(1, 2, 4)),
        std::cmp::Ordering::Less
    );
    assert_eq!(
        ver(1, 3, 0).compare(&ver(1, 2, 9)),
        std::cmp::Ordering::Greater
    );
    assert!(ver(1, 2, 3).le(&ver(1, 2, 3)));
    assert!(!ver(1, 2, 4).le(&ver(1, 2, 3)));
    assert!(ToolChain::Version(ver(1, 2, 3)).le(&ToolChain::Latest));
    assert!(ToolChain::Latest.le(&ToolChain::Latest));
    assert!(!ToolChain::Local.le(&ToolChain::Nightly));
}

#[test]
fn round_trip_all_variants() {
    let cases = vec![
        ToolChain::Version(ver(0, 16, 2)),
        ToolChain::Version(ver(1, 0, 0)),
        ToolChain::Version(ver(10, 200, 3000)),
        ToolChain::Latest,
        ToolChain::Nightly,
        ToolChain::Local,
    ];
    for t in cases {
        let text = t.name();
        assert_eq!(ToolChain::parse(text.as_str()), Ok(t));
    }
}

#[test]
fn canonical_names() {
    assert_eq!(ToolChain::Latest.name(), "latest");
    assert_eq!(ToolChain::Nightly.name(), "nightly");
    assert_eq!(ToolChain::Local.name(), "local");
    assert_eq!(ToolChain::Version(ver(0, 16, 2)).name(), "0.16.2");
}

#[test]
fn parse_rejects_garbage() {
    assert_eq!(
        ToolChain::parse("not-a-version-or-keyword"),
        Err(Error::ParseError)
    );
    assert_eq!(ToolChain::parse(""), Err(Error::ParseError));
    assert_eq!(ToolChain::parse("Latest"), Err(Error::ParseError));
    assert_eq!(ToolChain::parse("1.2"), Err(Error::ParseError));
    assert_eq!(ToolChain::parse("1.2.3.4"), Err(Error::ParseError));
    assert_eq!(ToolChain::parse("01.2.3"), Err(Error::ParseError));
    assert_eq!(ToolChain::parse("1.2.03"), Err(Error::ParseError));
    assert_eq!(ToolChain::parse("1.2.3 "), Err(Error::ParseError));
    assert_eq!(ToolChain::parse("v1.2.3"), Err(Error::ParseError));
}

#[test]
fn parse_accepts_versions_and_keywords() {
    assert_eq!(
        ToolChain::parse("1.2.3"),
        Ok(ToolChain::Version(ver(1, 2, 3)))
    );
    assert_eq!(
        ToolChain::parse("0.0.0"),
        Ok(ToolChain::Version(ver(0, 0, 0)))
    );
    assert_eq!(ToolChain::parse("latest"), Ok(ToolChain::Latest));
    assert_eq!(ToolChain::parse("nightly"), Ok(ToolChain::Nightly));
    assert_eq!(ToolChain::parse("local"), Ok(ToolChain::Local));
}

#[test]
fn listing_parses_and_sorts() {
    let names: Vec<String> = vec![
        "nightly".to_string(),
        "0.9.0".to_string(),
        "leftover.tmp".to_string(),
        "latest".to_string(),
        "1.10.0".to_string(),
        "1.2.0".to_string(),
    ];
    let list = toolchains_from_names(&names);
    assert_eq!(
        list,
        vec![
            ToolChain::Version(ver(0, 9, 0)),
            ToolChain::Version(ver(1, 2, 0)),
            ToolChain::Version(ver(1, 10, 0)),
            ToolChain::Latest,
            ToolChain::Nightly,
        ]
    );
}

#[test]
fn listing_of_empty_dir_is_empty() {
    let names: Vec<String> = Vec::new();
    assert_eq!(toolchains_from_names(&names), Vec::new());
}

#[test]
fn tool_name_list() {
    let tools = tool_names();
    assert_eq!(tools, vec!["veryl".to_string(), "veryl-ls".to_string()]);
}

#[test]
fn toolchain_paths() {
    let t = ToolChain::Version(ver(1, 2, 3));
    assert_eq!(t.dir_path("/data/toolchains"), "/data/toolchains/1.2.3");
    assert_eq!(
        t.tool_path("/data/toolchains", "veryl-ls"),
        "/data/toolchains/1.2.3/veryl-ls"
    );
}
