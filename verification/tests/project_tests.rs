use zako_core::author::{Author, AuthorError, InternedAuthor};
use zako_core::config_value::{ConfigDefault, ConfigType, ConfigValue};
use zako_core::intern::{InternedString, Interner};
use zako_core::module_loader::specifier::{ModuleSpecifier, ModuleType};
use zako_core::package_source::{PackageSource, PackageSourceResolveError};
use zako_core::path::NeutralPath;
use zako_core::pattern::Pattern;
use zako_core::project::{Project, ProjectResolveError};

fn sample_project() -> Project {
    Project {
        group: "moe.fra".to_string(),
        artifact: "zako".to_string(),
        version: "1.2.3".to_string(),
        configure_script: Some("configure.ts".to_string()),
        description: Some("a build tool".to_string()),
        authors: Some(vec![Author::new("Jane", "jane@example.org").unwrap()]),
        license: Some("MIT".to_string()),
        builds: Some(Pattern {
            patterns: vec!["src/**".to_string(), "!src/gen".to_string()],
            following_ignore_files: true,
            ignore_hidden_files: false,
        }),
        rules: None,
        toolchains: None,
        subprojects: Some(Pattern {
            patterns: vec!["sub/*".to_string()],
            following_ignore_files: false,
            ignore_hidden_files: true,
        }),
        dependencies: Some(vec![
            ("core".to_string(), PackageSource::Path { path: "libs/./core".to_string() }),
            ("std".to_string(), PackageSource::Registry { package: "moe.fra:std@2.0.0".to_string() }),
        ]),
        mount_config: Some("settings".to_string()),
        config: Some(vec![(
            "debug".to_string(),
            ConfigValue { config_type: ConfigType::Boolean, default: Some(ConfigDefault::Boolean(false)) },
        )]),
    }
}

#[test]
fn project_keys_are_checked_dependencies_first() {
    let p = sample_project();
    assert!(p.validate().is_ok());

    let mut bad = sample_project();
    bad.dependencies = Some(vec![("1core".to_string(), PackageSource::Http { url: "https://x".to_string() })]);
    bad.config = Some(vec![(
        "bad key".to_string(),
        ConfigValue { config_type: ConfigType::Number, default: None },
    )]);
    match bad.validate() {
        Err(ProjectResolveError::InvalidDependencyKey(k)) => assert_eq!(k, "1core"),
        other => panic!("unexpected {:?}", other),
    }
    bad.dependencies = None;
    match bad.validate() {
        Err(ProjectResolveError::InvalidConfigKey(k)) => assert_eq!(k, "bad key"),
        other => panic!("unexpected {:?}", other),
    }
    let mut interner = Interner::new();
    match bad.resolve(&mut interner) {
        Err(ProjectResolveError::InvalidConfigKey(k)) => assert_eq!(k, "bad key"),
        other => panic!("unexpected {:?}", other),
    }
}

#[test]
fn project_resolves_and_reads_back() {
    let mut interner = Interner::new();
    let resolved = sample_project().resolve(&mut interner).unwrap();
    assert_eq!(interner.resolve(&resolved.group.0).unwrap(), "moe.fra");
    assert_eq!(interner.resolve(&resolved.version.0).unwrap(), "1.2.3");
    assert_eq!(interner.resolve(&resolved.mount_config.as_ref().unwrap().0).unwrap(), "settings");
    let raw = resolved.to_raw(&interner).unwrap();
    let mut expected = sample_project();
    expected.dependencies = Some(vec![
        ("core".to_string(), PackageSource::Path { path: "libs/core".to_string() }),
        ("std".to_string(), PackageSource::Registry { package: "moe.fra:std@2.0.0".to_string() }),
    ]);
    assert_eq!(raw, expected);
}

#[test]
fn project_without_mount_point_reads_back_without_one() {
    let mut interner = Interner::new();
    let mut p = sample_project();
    p.mount_config = None;
    p.dependencies = None;
    p.authors = None;
    let raw = p.clone().resolve(&mut interner).unwrap().to_raw(&interner).unwrap();
    assert_eq!(raw, p);
}

#[test]
fn project_group_version_and_source_errors() {
    let mut interner = Interner::new();
    let mut p = sample_project();
    p.group = "123.abc".to_string();
    assert!(matches!(p.resolve(&mut interner), Err(ProjectResolveError::PackageParseError(_))));

    let mut p = sample_project();
    p.version = "one".to_string();
    assert!(matches!(p.resolve(&mut interner), Err(ProjectResolveError::PackageParseError(_))));

    let mut p = sample_project();
    p.dependencies = Some(vec![("up".to_string(), PackageSource::Path { path: "../up".to_string() })]);
    assert!(matches!(
        p.resolve(&mut interner),
        Err(ProjectResolveError::PackageSourceResolveError(PackageSourceResolveError::PathNotInRoot(_)))
    ));
}

#[test]
fn resolved_project_with_a_foreign_key_is_refused() {
    let mut interner = Interner::new();
    let mut resolved = sample_project().resolve(&mut interner).unwrap();
    assert!(resolved.to_raw(&interner).is_ok());
    let mut foreign_pattern = resolved.clone();
    foreign_pattern.builds.as_mut().unwrap().patterns.push(InternedString(9_999));
    assert!(matches!(foreign_pattern.to_raw(&interner), Err(ProjectResolveError::InternerError(_))));
    let mut foreign_author = resolved.clone();
    foreign_author.authors.as_mut().unwrap()[0].email = InternedString(9_999);
    assert!(matches!(foreign_author.to_raw(&interner), Err(ProjectResolveError::AuthorError(_))));
    resolved.group.0 = InternedString(10_000);
    assert!(matches!(resolved.to_raw(&interner), Err(ProjectResolveError::InternerError(_))));
}

#[test]
fn author_interns_and_resolves() {
    let mut interner = Interner::new();
    let a = Author::new("Jane", "jane@example.org").unwrap();
    let i = a.intern(&mut interner).unwrap();
    assert_eq!(interner.resolve(&i.name).unwrap(), "Jane");
    assert_eq!(interner.resolve(&i.email).unwrap(), "jane@example.org");
    assert_eq!(i.resolve(&interner).unwrap(), a);
    let again = a.intern(&mut interner).unwrap();
    assert_eq!(again, i);

    let missing = InternedAuthor { name: InternedString(500), email: i.email };
    assert!(matches!(missing.resolve(&interner), Err(AuthorError::InternerError(_))));
    let bad = interner.get_or_intern("a<b").unwrap();
    let not_a_name = InternedAuthor { name: bad, email: i.email };
    assert!(not_a_name.resolve(&interner).is_err());
}

#[test]
fn paths_inside_a_directory() {
    let dot = NeutralPath::current_dir();
    let a = NeutralPath::from_path("a").unwrap();
    // the relative path from `.` to `a` is `../a`
    assert!(!a.is_in_dir(&dot));
    assert!(dot.is_in_dir(&dot));
    let src = NeutralPath::from_path("src").unwrap();
    let odd = NeutralPath::from_path("src/..x").unwrap();
    // the relative path is `..x`, which begins with `..`
    assert!(!odd.is_in_dir(&src));
    let inner = NeutralPath::from_path("src/lib/a.rs").unwrap();
    assert!(inner.is_in_dir(&src));
    assert!(src.is_in_dir(&src));
    assert!(!src.is_in_dir(&odd));
    let srcx = NeutralPath::from_path("srcx/a").unwrap();
    assert!(!srcx.is_in_dir(&src));
    let up = NeutralPath::from_path("../a").unwrap();
    assert!(!up.is_in_dir(&dot));
    let upup = NeutralPath::from_path("../..").unwrap();
    let up1 = NeutralPath::from_path("..").unwrap();
    assert!(!upup.is_in_dir(&up1));
    assert!(up.is_in_dir(&up1));
    let dotdot_name = NeutralPath::from_path("..x").unwrap();
    assert!(!dotdot_name.is_in_dir(&dot));
}

#[test]
fn source_paths_with_dotted_names_stay_in_the_root() {
    assert!(PackageSource::Path { path: "..x/lib".to_string() }.validate().is_ok());
    assert!(PackageSource::Path { path: "libs/./a".to_string() }.validate().is_ok());
    assert!(matches!(
        PackageSource::Path { path: "a/../..".to_string() }.validate(),
        Err(PackageSourceResolveError::PathNotInRoot(_))
    ));
}

#[test]
fn specifier_keeps_the_url_text() {
    let m = ModuleSpecifier::from("zako:core").unwrap();
    assert_eq!(m.text, m.url.as_str());
    let m = ModuleSpecifier::from("x/y.ts").unwrap();
    assert_eq!(m.module_type, ModuleType::File);
    assert_eq!(m.text, "file://x/y.ts");
    assert_eq!(m.text, m.url.as_str());
    let m = ModuleSpecifier::new_file_module("/tmp/x.ts").unwrap();
    assert_eq!(m.text, "file:///tmp/x.ts");
    let m = ModuleSpecifier::new(m.url.clone(), ModuleType::Builtin);
    assert_eq!(m.text, "file:///tmp/x.ts");
}

#[test]
fn normalizing_twice_is_normalizing_once() {
    let a = NeutralPath::from_path("a").unwrap();
    let odd = a.get_relative_path_to(&NeutralPath::current_dir()).unwrap();
    assert_eq!(odd.as_str(), "../.");
    let once = odd.normalize();
    assert_eq!(once.as_str(), "..");
    assert_eq!(once.normalize().as_str(), once.as_str());
    let p = NeutralPath::from_path("x/./y//z/..").unwrap();
    assert_eq!(p.as_str(), "x/y");
    assert_eq!(p.normalize().as_str(), "x/y");
    assert_eq!(NeutralPath::from_path(p.as_str()).unwrap().as_str(), "x/y");
}

#[test]
fn join_all_is_joining_one_part_after_the_other() {
    let base = NeutralPath::from_path("a/b").unwrap();
    let at_once = base.join_all(&["c/..", "../d"]).unwrap();
    let stepwise = base.join("c/..").unwrap().join("../d").unwrap();
    assert_eq!(at_once.as_str(), stepwise.as_str());
    assert_eq!(at_once.as_str(), "a/d");
    assert_eq!(base.join_all(&[]).unwrap().as_str(), "a/b");
    assert!(matches!(base.join_all(&["x", "/abs"]), Err(zako_core::path::PathError::PathIsAbsolute())));
    // a bad first name with an absolute second part: the joint join reports the absolute part
    assert!(base.join("nul").is_err());
    assert!(matches!(base.join_all(&["nul", "/abs"]), Err(zako_core::path::PathError::PathIsAbsolute())));
}

#[test]
fn parent_joined_with_file_name_is_the_path() {
    let p = NeutralPath::from_path("a/b/c.txt").unwrap();
    let f = p.filename().unwrap().to_string();
    assert_eq!(f, "c.txt");
    let parent = p.parent();
    assert_eq!(parent.as_str(), "a/b");
    assert_eq!(parent.join(&f).unwrap().as_str(), p.as_str());
    let top = NeutralPath::from_path("x").unwrap();
    assert_eq!(top.parent().as_str(), ".");
    assert_eq!(top.parent().join("x").unwrap().as_str(), "x");
    assert_eq!(NeutralPath::current_dir().parent().as_str(), "..");
    assert_eq!(NeutralPath::from_path("..").unwrap().filename(), None);
}

#[test]
fn following_the_relative_path_arrives() {
    let a = NeutralPath::from_path("x/y").unwrap();
    let b = NeutralPath::from_path("x/z/w").unwrap();
    let r = a.get_relative_path_to(&b).unwrap();
    assert_eq!(r.as_str(), "../z/w");
    assert_eq!(a.join(r.as_str()).unwrap().as_str(), "x/z/w");
    let dot = NeutralPath::current_dir();
    let back = a.get_relative_path_to(&dot).unwrap();
    assert_eq!(a.join(back.as_str()).unwrap().as_str(), ".");
    let same = a.get_relative_path_to(&a).unwrap();
    assert_eq!(same.as_str(), ".");
    assert_eq!(a.join(same.as_str()).unwrap().as_str(), "x/y");
    // from `.` the round trip does not hold
    let from_dot = dot.get_relative_path_to(&b).unwrap();
    assert_eq!(from_dot.as_str(), "../x/z/w");
    assert_eq!(dot.join(from_dot.as_str()).unwrap().as_str(), "../x/z/w");
}

#[test]
fn keys_in_order_report_the_least_bad_key() {
    let mut p = sample_project();
    p.dependencies = Some(vec![
        ("1a".to_string(), PackageSource::Http { url: "https://x".to_string() }),
        ("2b".to_string(), PackageSource::Http { url: "https://y".to_string() }),
        ("ok".to_string(), PackageSource::Http { url: "https://z".to_string() }),
    ]);
    match p.validate() {
        Err(ProjectResolveError::InvalidDependencyKey(k)) => assert_eq!(k, "1a"),
        other => panic!("unexpected {:?}", other),
    }
}

#[test]
fn empty_text_is_never_an_absolute_path() {
    let mut interner = Interner::new();
    assert!(matches!(
        zako_core::intern::InternedAbsolutePath::new("", &mut interner),
        Err(zako_core::intern::AbsolutePathError::NotAbsolute(_))
    ));
    assert_eq!(interner.len(), 0);
}

#[test]
fn project_without_config_reads_back_with_an_empty_one() {
    let mut interner = Interner::new();
    let mut p = sample_project();
    p.config = None;
    let resolved = p.clone().resolve(&mut interner).unwrap();
    assert!(resolved.config.is_empty());
    let raw = resolved.to_raw(&interner).unwrap();
    assert_eq!(raw.config, Some(vec![]));
    let mut expected = p;
    expected.config = Some(vec![]);
    expected.dependencies = Some(vec![
        ("core".to_string(), PackageSource::Path { path: "libs/core".to_string() }),
        ("std".to_string(), PackageSource::Registry { package: "moe.fra:std@2.0.0".to_string() }),
    ]);
    assert_eq!(raw, expected);
}

#[test]
fn the_least_bad_key_is_reported_whatever_the_listing_order() {
    let mut p = sample_project();
    p.dependencies = Some(vec![
        ("zz top".to_string(), PackageSource::Http { url: "https://x".to_string() }),
        ("ok".to_string(), PackageSource::Http { url: "https://y".to_string() }),
        ("1a".to_string(), PackageSource::Http { url: "https://z".to_string() }),
        ("9b".to_string(), PackageSource::Http { url: "https://w".to_string() }),
    ]);
    match p.validate() {
        Err(ProjectResolveError::InvalidDependencyKey(k)) => assert_eq!(k, "1a"),
        other => panic!("unexpected {:?}", other),
    }
    let mut q = sample_project();
    q.config = Some(vec![
        ("b c".to_string(), ConfigValue { config_type: ConfigType::Number, default: None }),
        ("a b".to_string(), ConfigValue { config_type: ConfigType::Number, default: None }),
        ("a".to_string(), ConfigValue { config_type: ConfigType::Number, default: None }),
    ]);
    match q.validate() {
        Err(ProjectResolveError::InvalidConfigKey(k)) => assert_eq!(k, "a b"),
        other => panic!("unexpected {:?}", other),
    }
}

#[test]
fn relative_texts_are_never_absolute_paths() {
    let mut interner = Interner::new();
    assert!(matches!(
        zako_core::intern::InternedAbsolutePath::new("src/main.rs", &mut interner),
        Err(zako_core::intern::AbsolutePathError::NotAbsolute(_))
    ));
    let k = interner.get_or_intern("src/main.rs").unwrap();
    assert!(zako_core::intern::InternedAbsolutePath::from_interned(k, &interner).unwrap().is_none());
}

#[test]
fn specifier_kind_follows_the_scheme_in_small_letters() {
    let m = ModuleSpecifier::from("ZAKO:core").unwrap();
    assert_eq!(m.module_type, ModuleType::Builtin);
    assert_eq!(m.url.scheme(), "zako");
    let m = ModuleSpecifier::from("File:///tmp/a.ts").unwrap();
    assert_eq!(m.module_type, ModuleType::File);
}
