use std::str::FromStr;
use zako_core::author::Author;
use zako_core::config_value::{ConfigDefault, ConfigType, ConfigValue};
use zako_core::intern::Interner;
use zako_core::package::{Package, PackageResolveError, ResolvingPackage};
use zako_core::pattern::Pattern;
use zako_core::package_source::PackageSource;

fn manifest(
    dependencies: Option<Vec<(String, PackageSource)>>,
    config: Option<Vec<(String, ConfigValue)>>,
) -> Package {
    Package {
        group: "moe.fra".to_string(),
        artifact: "zako".to_string(),
        version: "1.0.0".to_string(),
        configure_script: None,
        description: None,
        authors: None,
        license: None,
        builds: None,
        rules: None,
        toolchains: None,
        peers: None,
        dependencies,
        mount_config: None,
        config,
    }
}

fn number(n: i64) -> ConfigValue {
    ConfigValue { config_type: ConfigType::Number, default: Some(ConfigDefault::Number(n)) }
}

#[test]
fn package_keys_must_be_identifiers() {
    let dep = PackageSource::Http { url: "https://example.com/a.tar".to_string() };
    assert!(manifest(None, None).validate().is_ok());
    assert!(manifest(
        Some(vec![("lib-a".to_string(), dep.clone())]),
        Some(vec![("jobs".to_string(), number(4))])
    )
    .validate()
    .is_ok());
    match manifest(
        Some(vec![("1bad".to_string(), dep.clone())]),
        Some(vec![("ok".to_string(), number(1)), ("no good".to_string(), number(2))]),
    )
    .validate()
    {
        Err(PackageResolveError::InvalidConfigKey(k)) => assert_eq!(k, "no good"),
        other => panic!("unexpected {:?}", other),
    }
    match manifest(Some(vec![("a".to_string(), dep.clone()), ("1bad".to_string(), dep)]), None)
        .validate()
    {
        Err(PackageResolveError::InvalidDependencyKey(k)) => assert_eq!(k, "1bad"),
        other => panic!("unexpected {:?}", other),
    }
}

#[test]
fn author_output_format_parses_back() {
    let a = Author::new("Dana Scully", "dana@example.org").unwrap();
    let b = Author::from_str(&a.get_output_format()).unwrap();
    assert_eq!(a, b);
}

#[test]
fn resolving_a_package_interns_its_parts() {
    let pattern = |p: &str| Pattern {
        patterns: vec![p.to_string()],
        following_ignore_files: true,
        ignore_hidden_files: true,
    };
    let mut p = manifest(
        Some(vec![("core".to_string(), PackageSource::Path { path: "libs/core".to_string() })]),
        Some(vec![("jobs".to_string(), number(4))]),
    );
    p.builds = Some(pattern("src/**"));
    p.authors = Some(vec![Author::from_str("Jane <jane@example.org>").unwrap()]);
    p.license = Some("MIT".to_string());
    p.mount_config = Some("settings".to_string());
    let mut rp = ResolvingPackage::new(p.clone());
    rp.additional_builds.push(pattern("gen/**"));
    rp.additional_peers.push(pattern("peer/*"));
    let mut interner = Interner::new();
    let r = rp.resolve(&mut interner).unwrap();
    assert_eq!(r.get_id().resolved(&interner).unwrap(), "moe.fra:zako@1.0.0");
    assert_eq!(interner.resolve(&r.get_artifact_id().name.0).unwrap(), "zako");
    assert_eq!(interner.resolve(&r.group.0).unwrap(), "moe.fra");
    assert_eq!(interner.resolve(&r.artifact.0).unwrap(), "zako");
    assert_eq!(interner.resolve(&r.version.0).unwrap(), "1.0.0");
    assert_eq!(interner.resolve(&r.license.unwrap()).unwrap(), "MIT");
    assert_eq!(r.builds.patterns.len(), 2);
    assert_eq!(interner.resolve(&r.builds.patterns[0].patterns[0]).unwrap(), "src/**");
    assert_eq!(interner.resolve(&r.builds.patterns[1].patterns[0]).unwrap(), "gen/**");
    assert_eq!(r.rules.patterns.len(), 0);
    assert_eq!(r.peers.patterns.len(), 1);
    assert_eq!(interner.resolve(&r.mount_config.unwrap().0).unwrap(), "settings");
    assert_eq!(r.config, p.config);
    let authors = r.authors.unwrap();
    assert_eq!(authors[0].resolve(&interner).unwrap(), p.authors.unwrap()[0]);
}

#[test]
fn resolving_a_package_reports_what_is_wrong() {
    let mut interner = Interner::new();
    let bad_key = manifest(None, Some(vec![("no good".to_string(), number(1))]));
    assert!(matches!(
        ResolvingPackage::new(bad_key).resolve(&mut interner),
        Err(PackageResolveError::InvalidConfigKey(_))
    ));
    let mut bad_group = manifest(None, None);
    bad_group.group = "".to_string();
    assert!(matches!(
        ResolvingPackage::new(bad_group).resolve(&mut interner),
        Err(PackageResolveError::PackageParseError(_))
    ));
    let mut bad_artifact = manifest(None, None);
    bad_artifact.artifact = "9lives".to_string();
    match ResolvingPackage::new(bad_artifact).resolve(&mut interner) {
        Err(PackageResolveError::IdParseError(t, part, _)) => {
            assert_eq!(t, "9lives");
            assert_eq!(part, "artifact");
        }
        other => panic!("unexpected {:?}", other),
    }
    let mut bad_version = manifest(None, None);
    bad_version.version = "v1".to_string();
    assert!(matches!(
        ResolvingPackage::new(bad_version).resolve(&mut interner),
        Err(PackageResolveError::PackageParseError(_))
    ));
    let outside = manifest(
        Some(vec![("up".to_string(), PackageSource::Path { path: "../up".to_string() })]),
        None,
    );
    assert!(matches!(
        ResolvingPackage::new(outside).resolve(&mut interner),
        Err(PackageResolveError::PackageSourceResolveError(_))
    ));
    let mut bad_mount = manifest(None, None);
    bad_mount.mount_config = Some("a b".to_string());
    match ResolvingPackage::new(bad_mount).resolve(&mut interner) {
        Err(PackageResolveError::IdParseError(t, part, _)) => {
            assert_eq!(t, "a b");
            assert_eq!(part, "mount_config");
        }
        other => panic!("unexpected {:?}", other),
    }
}
