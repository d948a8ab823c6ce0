use daft::territory::glob::{matches_glob, normalize_glob, patterns_overlap};

#[test]
fn glob_matching_from_claims_scenario() {
    assert!(matches_glob("src/api/**", "src/api/v1/auth.rs"));
    assert!(matches_glob("src/api/**", "src/api/handler.rs"));
    assert!(!matches_glob("src/api/**", "src/core/auth.rs"));
    assert!(matches_glob("models/*.rs", "models/user.rs"));
    assert!(!matches_glob("models/*.rs", "models/nested/user.rs"));
    assert!(!matches_glob("models/*.rs", "src/models/user.rs"));
}

#[test]
fn glob_normalization() {
    assert_eq!(normalize_glob("./src\\main.rs"), "src/main.rs");
    assert_eq!(normalize_glob("././a/b"), "a/b");
    assert_eq!(normalize_glob(normalize_glob("./x\\y").as_str()), normalize_glob("./x\\y"));
}

#[test]
fn glob_single_characters_and_directories() {
    assert!(matches_glob("src/ma?n.rs", "src/main.rs"));
    assert!(!matches_glob("src/ma?n.rs", "src/maain.rs"));
    assert!(matches_glob("docs/", "docs/guide/intro.md"));
    assert!(matches_glob("**", "anything/at/all.txt"));
    assert!(matches_glob("src/*.rs", "src/*.rs"));
}

#[test]
fn glob_overlap_is_symmetric_and_reflexive() {
    assert!(patterns_overlap("src/**", "src/lib.rs"));
    assert!(patterns_overlap("src/lib.rs", "src/**"));
    assert!(patterns_overlap("a/*.rs", "a/*.rs"));
    assert!(!patterns_overlap("src/**", "docs/**"));
    assert!(!patterns_overlap("docs/**", "src/**"));
}

#[test]
fn overlap_is_a_common_path() {
    // Both match `ab.rs`.
    assert!(patterns_overlap("*.rs", "a*"));
    assert!(matches_glob("*.rs", "ab.rs") && matches_glob("a*", "ab.rs"));
    // A directory and a pattern below it.
    assert!(patterns_overlap("src/", "src/*/mod.rs"));
    assert!(patterns_overlap("src/auth/", "src/"));
    assert!(!patterns_overlap("src/auth/", "src/db/"));
    // `x/**/` covers the subtree `x`, as does `x`.
    assert!(patterns_overlap("x/**/", "x"));
    // A path and a path below it overlap as subtrees.
    assert!(patterns_overlap("src", "src/a.rs"));
    assert!(patterns_overlap("src/a.rs", "src"));
    assert!(!patterns_overlap("src", "srcs/a.rs"));
    assert!(patterns_overlap(".", "x.rs"));
    // The only path both would match is `./x`, which is the path `x`.
    assert!(!patterns_overlap("?/x", ".*/x"));
    assert!(patterns_overlap("?/x", ".*/x/**") == patterns_overlap(".*/x/**", "?/x"));
    assert!(!patterns_overlap("*.rs", "*.md"));
    assert!(patterns_overlap("**/*.rs", "src/**/lib.rs"));
    assert!(patterns_overlap("a/?c", "a/b*"));
    assert!(!patterns_overlap("a/?c", "a/b*d"));
}

#[test]
fn overlap_of_patterns_full_of_stars() {
    assert!(!patterns_overlap("*a*a*a*a*a*a*a*a*a*a*b", "*a*a*a*a*a*a*a*a*a*a*c"));
    assert!(patterns_overlap("*a*a*a*a*a*a*a*a*a*a*b", "*b"));
    assert!(!patterns_overlap("**/**/**/**/**/**/x", "**/**/**/**/**/**/y"));
    assert!(patterns_overlap("**/**/**/**/**/**/x", "a/**/x"));
}
