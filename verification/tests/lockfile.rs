//! Lock files.
use compiler::lockfile::{trusted_extra_stems, Lockfile};
use compiler::manifest::DependencySpec;

#[test]
fn missing_native_rows_are_empty() {
    let src = "# spool lockfile v1

[[package]]
name = 'tls'
git = 'https://github.com/ardax-corp/coil-tls'
tag = 'v0.1.0'
rev = 'abc'
content_hash = 'ddd'
";
    assert!(Lockfile::parse(src).native_pins.is_empty());
}

#[test]
fn parses_package_native_sha256() {
    let hash = "ab".repeat(32);
    let src = format!(
        "[[package]]
name = 'tls'
git = 'https://github.com/ardax-corp/coil-tls'
rev = 'abc'
content_hash = 'tree'

[[package.native]]
triple = 'x86_64-linux-gnu'
url = 'https://example.test/libtls.so'
sha256 = '{hash}'
"
    );
    let lock = Lockfile::parse(&src);
    assert_eq!(lock.native_pins, vec![("tls".into(), hash)]);
}

#[test]
fn coil_prefixed_package_pins_stripped_stem() {
    let hash = "cd".repeat(32);
    let src = format!(
        "[[package]]
name = 'coil-tls'
[[package.native]]
sha256 = '{hash}'
"
    );
    let lock = Lockfile::parse(&src);
    assert_eq!(lock.native_pins, vec![("tls".into(), hash)]);
}

#[test]
fn native_stem_overrides_package_name() {
    let hash = "ef".repeat(32);
    let src = format!(
        "[[package]]
name = 'coil-http'
[[package.native]]
stem = 'tls'
sha256 = '{hash}'
"
    );
    let lock = Lockfile::parse(&src);
    assert_eq!(lock.native_pins, vec![("tls".into(), hash)]);
}

#[test]
fn skips_short_hashes() {
    let src = "[[package]]
name = 'tls'
[[package.native]]
sha256 = 'abc'
";
    assert!(Lockfile::parse(src).native_pins.is_empty());
}

#[test]
fn native_stem_without_sha_is_recorded() {
    let src = "[[package]]
name = 'coil-http'
[[package.native]]
stem = 'plugin'
";
    let lock = Lockfile::parse(src);
    assert!(lock.native_pins.is_empty());
    assert_eq!(
        lock.package_stems,
        vec![("coil-http".into(), "plugin".into())]
    );
}

#[test]
fn trusted_extra_stems_from_dep_name_and_coil_strip() {
    let deps = vec![(
        "coil-plugin".into(),
        DependencySpec::Git {
            url: "https://example.com/plugin.git".into(),
            version: None,
            rev: None,
            trusted: true,
        },
    )];
    let stems = trusted_extra_stems(&deps, &Lockfile::default());
    assert!(stems.contains(&"coil-plugin".into()));
    assert!(stems.contains(&"plugin".into()));
}

#[test]
fn trusted_extra_stems_include_lock_native_stem() {
    let deps = vec![(
        "coil-http".into(),
        DependencySpec::Path {
            path: "../http".into(),
            trusted: true,
        },
    )];
    let lock = Lockfile::parse(
        "[[package]]
name = 'coil-http'
[[package.native]]
stem = 'plugin'
",
    );
    let stems = lock.trusted_extra_stems(&deps);
    assert!(stems.contains(&"plugin".into()));
    assert!(stems.contains(&"coil-http".into()));
    assert!(stems.contains(&"http".into()));
}

#[test]
fn untrusted_deps_are_not_trusted_stems() {
    let deps = vec![(
        "plugin".into(),
        DependencySpec::Git {
            url: "https://example.com/plugin.git".into(),
            version: None,
            rev: None,
            trusted: false,
        },
    )];
    assert!(trusted_extra_stems(&deps, &Lockfile::default()).is_empty());
}

#[test]
fn trusted_stem_mapping_does_not_drop_native_pins() {
    let hash = "ab".repeat(32);
    let lock = Lockfile::parse(&format!(
        "[[package]]
name = 'plugin'
content_hash = 'tree'
[[package.native]]
sha256 = '{hash}'
"
    ));
    assert_eq!(lock.native_pins, vec![("plugin".into(), hash)]);
}
