use zako_core::intern::{InternedAbsolutePath, Interner};
use zako_core::node_key::{RawZakoKey, ZakoKey};
use zako_core::pattern::Pattern;

#[test]
fn test_interned_absolute_path() {
    let mut interner = Interner::new();
    // Using a path that is absolute on most systems for test
    let abs_path = "/usr/bin/cargo";

    let rel_path = "src/main.rs";

    // Test new
    let p1 = InternedAbsolutePath::new(abs_path, &mut interner);
    assert!(p1.is_ok());
    let p1 = p1.unwrap();

    let p2 = InternedAbsolutePath::new(rel_path, &mut interner);
    assert!(p2.is_err());

    // Test from_interned
    let p3 = InternedAbsolutePath::from_interned(p1.interned(), &interner).unwrap();
    assert!(p3.is_some());
    assert_eq!(p3.unwrap(), p1);
}

#[test]
fn absolute_path_checked_by_the_caller() {
    let mut interner = Interner::new();
    let p = InternedAbsolutePath::new_checked("/a", true, &mut interner).unwrap();
    assert_eq!(p.resolve(&interner).unwrap(), "/a");
    assert!(InternedAbsolutePath::new_checked("/b", false, &mut interner).is_err());
    assert_eq!(interner.len(), 1);
}

#[test]
fn glob_key_reads_back_as_itself() {
    let mut interner = Interner::new();
    let base = InternedAbsolutePath::new_checked("/work", true, &mut interner).unwrap();
    let pattern = Pattern {
        patterns: vec!["src/**/*.ts".to_string(), "!**/test".to_string()],
        following_ignore_files: true,
        ignore_hidden_files: false,
    }
    .intern(&mut interner);
    let key = ZakoKey::Glob { base_path: base, pattern };
    let raw = key.to_persisted(&interner).unwrap();
    match &raw {
        RawZakoKey::Glob { base_path, pattern } => {
            assert_eq!(base_path, "/work");
            assert_eq!(pattern.patterns, vec!["src/**/*.ts".to_string(), "!**/test".to_string()]);
        }
        RawZakoKey::ResolveProject => panic!("expected a glob"),
    }
    let before = interner.len();
    let back = ZakoKey::from_persisted(raw, &mut interner).unwrap();
    assert_eq!(back, key);
    assert_eq!(interner.len(), before);
    assert!(ZakoKey::ResolveProject { path: "a".to_string() }.to_persisted(&interner).is_none());
}
