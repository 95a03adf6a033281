use vpm_core::version::{parse_version, Identifier, Version};

fn ver(major: u64, minor: u64, patch: u64, pre: &str, build: &str) -> Version {
    Version {
        major,
        minor,
        patch,
        pre: Identifier::new(pre),
        build: Identifier::new(build),
    }
}

#[test]
fn parse_simple_triple() {
    let v = parse_version("1.2.3").unwrap();
    assert_eq!(v.major, 1);
    assert_eq!(v.minor, 2);
    assert_eq!(v.patch, 3);
    assert!(v.pre.is_empty());
    assert!(v.build.is_empty());
}

#[test]
fn parse_prerelease_and_build() {
    let v = parse_version("1.0.0-alpha.1+build5").unwrap();
    assert_eq!(v.major, 1);
    assert_eq!(v.pre.as_str(), "alpha.1");
    assert_eq!(v.build.as_str(), "build5");
}

#[test]
fn parse_build_only() {
    let v = parse_version("2.10.0+nightly").unwrap();
    assert_eq!(v.minor, 10);
    assert!(v.pre.is_empty());
    assert_eq!(v.build.as_str(), "nightly");
}

#[test]
fn parse_zero_version() {
    let v = parse_version("0.0.0").unwrap();
    assert_eq!((v.major, v.minor, v.patch), (0, 0, 0));
}

#[test]
fn parse_rejects_malformed() {
    assert!(parse_version("").is_none());
    assert!(parse_version("1.2").is_none());
    assert!(parse_version("1.2.").is_none());
    assert!(parse_version("1.2.3.4").is_none());
    assert!(parse_version("01.2.3").is_none());
    assert!(parse_version("1.02.3").is_none());
    assert!(parse_version("a.b.c").is_none());
    assert!(parse_version("1.2.3x").is_none());
    assert!(parse_version("1.2.3 ").is_none());
    assert!(parse_version("v1.2.3").is_none());
    assert!(parse_version("1.2.3-\u{e9}").is_none());
}

#[test]
fn parse_rejects_overflowing_numeral() {
    assert!(parse_version("99999999999999999999999999.0.0").is_none());
}

#[test]
fn order_core_triple() {
    let a = parse_version("0.9.0").unwrap();
    let b = parse_version("1.0.0").unwrap();
    assert!(a.lt(&b));
    assert!(!b.lt(&a));
    let c = parse_version("1.0.1").unwrap();
    assert!(b.lt(&c));
    let d = parse_version("1.1.0").unwrap();
    assert!(c.lt(&d));
}

#[test]
fn order_prerelease_below_release() {
    let pre = parse_version("1.0.0-alpha").unwrap();
    let rel = parse_version("1.0.0").unwrap();
    assert!(pre.lt(&rel));
    assert!(!rel.lt(&pre));
}

#[test]
fn order_prereleases_lexicographic() {
    let a = parse_version("1.0.0-alpha").unwrap();
    let b = parse_version("1.0.0-beta").unwrap();
    assert!(a.lt(&b));
    assert!(!b.lt(&a));
}

#[test]
fn order_is_irreflexive() {
    let a = ver(1, 2, 3, "rc", "7");
    let b = ver(1, 2, 3, "rc", "7");
    assert!(!a.lt(&b));
    assert!(!b.lt(&a));
}

#[test]
fn identifier_accessors() {
    let e = Identifier::empty();
    assert!(e.is_empty());
    assert_eq!(e.as_str(), "");
    let d = Identifier::default();
    assert!(d.is_empty());
    let i = Identifier::new("alpha");
    assert!(!i.is_empty());
    assert_eq!(i.as_str(), "alpha");
    let z = Identifier::new("");
    assert!(z.is_empty());
}
