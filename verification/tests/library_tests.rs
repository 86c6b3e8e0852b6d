use zako_core::author::{Author, AuthorError};
use zako_core::blob_range::{BlobRange, BlobRangeError};
use zako_core::id::{is_xid_ident, IdParseError, Label};
use zako_core::intern::{InternedString, Interner, InternerError};
use zako_core::local_cas::LocalCas;
use zako_core::module_loader::{import_decision, ImportDecision, ImportRefusal};
use zako_core::module_loader::specifier::{fallback_url_exec, ModuleSpecifier, ModuleType};
use zako_core::package_id::InternedPackageId;
use zako_core::package_source::{PackageSource, PackageSourceResolveError};
use zako_core::path::NeutralPath;
use zako_core::resource::{ResourceRequest, ResourceType};

#[test]
fn interning_twice_gives_the_same_key() {
    let mut interner = Interner::new();
    let a = interner.get_or_intern("zako").unwrap();
    let b = interner.get_or_intern("core").unwrap();
    let c = interner.get_or_intern("zako").unwrap();
    assert_eq!(a, c);
    assert_ne!(a, b);
    assert_eq!(interner.len(), 2);
    assert_eq!(interner.resolve(&b).unwrap(), "core");
    assert_eq!(interner.resolve(&InternedString(7)), Err(InternerError::KeyNotFound(7)));
}

#[test]
fn normalizing_a_normal_path_changes_nothing() {
    let p = NeutralPath::from_path("a/./b/../c//d").unwrap();
    assert_eq!(p.as_str(), "a/c/d");
    let q = NeutralPath::from_path(p.as_str()).unwrap();
    assert_eq!(q.as_str(), p.as_str());
    assert!(p.is_in_dir(&p));
}

#[test]
fn package_id_resolves_to_its_text() {
    let mut interner = Interner::new();
    let id = InternedPackageId::try_parse("com.example:lib-a@2.0.0-rc.1", &mut interner).unwrap();
    assert_eq!(id.resolved(&interner).unwrap(), "com.example:lib-a@2.0.0-rc.1");
}

#[test]
fn label_errors_name_the_failing_part() {
    let mut interner = Interner::new();
    assert!(matches!(Label::try_parse("src:lib", &mut interner), Err(IdParseError::InvalidLabel(_))));
    assert!(matches!(
        Label::try_parse("curl//src:lib", &mut interner),
        Err(IdParseError::InvalidPackageRef(t)) if t == "curl"
    ));
    assert!(matches!(
        Label::try_parse("//src/../x:lib", &mut interner),
        Err(IdParseError::InvalidPath(t)) if t == "src/../x"
    ));
    assert!(matches!(
        Label::try_parse("//src:1lib", &mut interner),
        Err(IdParseError::InvalidAtom(t)) if t == "1lib"
    ));
    assert!(matches!(Label::try_parse("//", &mut interner), Err(IdParseError::InvalidAtom(_))));
    assert_eq!(interner.len(), 0);
    let l = Label::try_parse("//a/b", &mut interner).unwrap();
    assert_eq!(interner.resolve(&l.target.0).unwrap(), "b");
    assert_eq!(l.resolved(&interner).unwrap(), "//a/b:b");
}

#[test]
fn identifiers_follow_unicode() {
    assert!(is_xid_ident("été"));
    assert!(!is_xid_ident("a b"));
}

#[test]
fn author_errors() {
    assert_eq!(
        Author::new("Alice", "a<b").unwrap_err(),
        AuthorError::InvalidEmail("a<b".to_string())
    );
    assert_eq!(
        Author::new("<", "a").unwrap_err(),
        AuthorError::InvalidName("<".to_string())
    );
    assert_eq!(
        Author::parse("Bob <b>c>").unwrap_err(),
        AuthorError::InvalidFormat("Bob <b>c>".to_string())
    );
    let a = Author::parse("Carol Ann <carol@example.com>").unwrap();
    assert_eq!(a.author(), "Carol Ann");
    assert_eq!(a.get_output_format(), "Carol Ann <carol@example.com>");
}

#[test]
fn blob_range_spans() {
    assert_eq!(BlobRange::new(1, Some(0)).unwrap_err(), BlobRangeError::ZeroLength);
    let r = BlobRange::new(10, Some(20)).unwrap();
    assert_eq!(r.span_in(30), Some((10, 20)));
    assert_eq!(r.span_in(29), None);
    let tail = BlobRange::new(10, None).unwrap();
    assert_eq!(tail.span_in(25), Some((10, 15)));
    assert_eq!(tail.span_in(10), Some((10, 0)));
    assert!(BlobRange::new(u64::MAX, Some(1)).unwrap().is_out_of(u64::MAX));
}

#[test]
fn blob_path_is_sharded_by_hash() {
    let content = b"hello zako";
    let digest = LocalCas::digest_of(content.len() as u64, content);
    let expected = blake3::hash(content);
    assert_eq!(&digest.get_hash(), expected.as_bytes());
    assert_eq!(digest.size, 10);
    let hex = expected.to_hex().to_string();
    assert_eq!(digest.to_hex(), hex);
    let cas = LocalCas::new("/var/cas".to_string());
    assert_eq!(cas.get_root(), "/var/cas");
    assert_eq!(cas.get_path_for_digest(&digest), format!("/var/cas/{}/{}", &hex[0..2], &hex[2..]));
    let cas = LocalCas::new("/var/cas/".to_string());
    assert_eq!(cas.get_path_for_digest(&digest), format!("/var/cas/{}/{}", &hex[0..2], &hex[2..]));
}

#[test]
fn specifiers_by_prefix_and_scheme() {
    let m = ModuleSpecifier::from("zako:core").unwrap();
    assert_eq!(m.module_type, ModuleType::Builtin);
    assert_eq!(m.url.as_str(), "zako:core");
    let m = ModuleSpecifier::from("__zako_memory:abc").unwrap();
    assert_eq!(m.module_type, ModuleType::Memory);
    assert_eq!(m.url.as_str(), "zako-memory:abc");
    let m = ModuleSpecifier::from("@std/fs").unwrap();
    assert_eq!(m.module_type, ModuleType::ImportMap);
    let m = ModuleSpecifier::from("file:///tmp/a.ts").unwrap();
    assert_eq!(m.module_type, ModuleType::File);
    assert_eq!(fallback_url_exec("x/y.ts").0, "file://x/y.ts");
    assert_eq!(fallback_url_exec("x/y.ts").1, ModuleType::File);
}

#[test]
fn package_sources_are_checked_and_interned() {
    let mut interner = Interner::new();
    let src = PackageSource::Path { path: "libs/./a".to_string() };
    let interned = src.intern(&mut interner).unwrap();
    assert_eq!(interned.unintern(&interner).unwrap(), PackageSource::Path { path: "libs/a".to_string() });

    let outside = PackageSource::Path { path: "../elsewhere".to_string() };
    assert!(matches!(outside.validate(), Err(PackageSourceResolveError::PathNotInRoot(_))));
    let absolute = PackageSource::Path { path: "/abs".to_string() };
    assert!(matches!(absolute.validate(), Err(PackageSourceResolveError::PathError(_))));

    let reg = PackageSource::Registry { package: "moe.fra:zako@1.0.0".to_string() };
    let interned = reg.intern(&mut interner).unwrap();
    assert_eq!(
        interned.unintern(&interner).unwrap(),
        PackageSource::Registry { package: "moe.fra:zako@1.0.0".to_string() }
    );
    let bad = PackageSource::Registry { package: "moe.fra:zako".to_string() };
    assert!(matches!(bad.intern(&mut interner), Err(PackageSourceResolveError::FailedToResolve(_))));

    let git = PackageSource::Git { repo: "https://x/y.git".to_string(), checkout: Some("main".to_string()) };
    let interned = git.clone().intern(&mut interner).unwrap();
    assert_eq!(interned.unintern(&interner).unwrap(), git);
}

#[test]
fn imports_follow_the_module_kinds() {
    assert_eq!(import_decision(ModuleType::File, ModuleType::File), ImportDecision::ResolveRelative);
    assert_eq!(import_decision(ModuleType::File, ModuleType::Builtin), ImportDecision::UseSpecifier);
    assert_eq!(
        import_decision(ModuleType::Memory, ModuleType::Builtin),
        ImportDecision::Refused(ImportRefusal::MemoryImportsOther)
    );
    assert_eq!(
        import_decision(ModuleType::Memory, ModuleType::ImportMap),
        ImportDecision::Refused(ImportRefusal::MemoryImportsOther)
    );
    assert_eq!(
        import_decision(ModuleType::Builtin, ModuleType::File),
        ImportDecision::Refused(ImportRefusal::BuiltinImportsNonBuiltin)
    );
    assert_eq!(
        import_decision(ModuleType::File, ModuleType::Memory),
        ImportDecision::Refused(ImportRefusal::FileImportsMemory)
    );
    assert_eq!(
        ImportRefusal::MemoryImportsFile.message(),
        "Memory module can not request file module"
    );
}

#[test]
fn path_helpers_on_concrete_values() {
    assert_eq!(NeutralPath::current_dir().as_str(), ".");
    let base = NeutralPath::from_path("a/b").unwrap();
    assert_eq!(base.join_all(&["c", "../d", "e"]).unwrap().as_str(), "a/b/d/e");
    assert!(base.join_all(&["c", "/abs"]).is_err());
    assert_eq!(base.normalize().as_str(), "a/b");
    assert!(NeutralPath::check_path_name_is_valid("file.txt").is_ok());
    assert!(NeutralPath::check_path_name_is_valid("nul").is_err());
    assert!(NeutralPath::check_path_name_is_valid("a?").is_err());
}

#[test]
fn requests_chain_every_kind() {
    let r = ResourceRequest::gpu(1u64)
        .request_cpu(2)
        .request_network(3)
        .request_other("licence".to_string(), 4)
        .request_gpu(5);
    assert_eq!(r.get(&ResourceType::GPU), Some(5));
    assert_eq!(r.get(&ResourceType::Processor), Some(2));
    assert_eq!(r.get(&ResourceType::Network), Some(3));
    assert_eq!(r.get(&ResourceType::Other("licence".to_string())), Some(4));
    assert_eq!(r.get(&ResourceType::Memory), None);
    assert_eq!(r.entries().len(), 4);
}

#[test]
fn file_module_specifier() {
    let m = ModuleSpecifier::new_file_module("/tmp/x.ts").unwrap();
    assert_eq!(m.module_type, ModuleType::File);
    assert_eq!(m.url.as_str(), "file:///tmp/x.ts");
}

#[test]
fn relative_path_to_the_current_dir_keeps_its_dot() {
    let a = NeutralPath::from_path("a").unwrap();
    let dot = NeutralPath::current_dir();
    assert_eq!(a.get_relative_path_to(&dot).unwrap().as_str(), "../.");
    assert_eq!(dot.get_relative_path_to(&a).unwrap().as_str(), "../a");
}

#[test]
fn store_paths_for_checking_storing_and_reading() {
    let content = b"hello zako";
    let digest = LocalCas::digest_of(content.len() as u64, content);
    let hex = blake3::hash(content).to_hex().to_string();
    let cas = LocalCas::new("/var/cas".to_string());
    assert_eq!(
        cas.get_check_path_for_digest(&digest),
        format!("/var/cas/{}/{}/{}", &hex[0..2], &hex[2..4], &hex[4..])
    );
    assert_eq!(
        cas.get_temp_path_for_digest(&digest, "tmp_1"),
        format!("/var/cas/{}/{}/tmp_1", &hex[0..2], &hex[2..])
    );
    assert_eq!(cas.local_path_given(&digest, None), None);
    assert_eq!(
        cas.local_path_given(&digest, Some(10)),
        Some(format!("/var/cas/{}/{}", &hex[0..2], &hex[2..]))
    );
    let range = BlobRange::new(2, Some(3)).unwrap();
    assert_eq!(range.span_in(10), Some((2, 3)));
    assert_eq!(range.span_in(4), None);
}
