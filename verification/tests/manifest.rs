//! Project manifests.
use compiler::manifest::{DependencySpec, Manifest, ManifestError, PackageInfo, Scripts};
use compiler::paths::path_to_namespace;

#[test]
fn default_manifest_has_src_root() {
    let m = Manifest::default();
    assert_eq!(m.roots, vec![String::from("src")]);
    assert_eq!(m.entry, None);
    assert!(m.package.is_none());
    assert!(m.dependencies.is_empty());
    assert_eq!(m.scripts, Scripts::default());
}

#[test]
fn parse_minimal_manifest() {
    let src = "[module]\nroots = [\"./src\"]\n";
    let m = Manifest::parse(src).unwrap();
    assert_eq!(m.roots, vec![String::from("./src")]);
    assert_eq!(m.entry, None);
}

#[test]
fn parse_full_manifest() {
    let src = r#"
            # coil project manifest
            [module]
            roots = ["./src", "./vendor", "./builtins"]

            [entry]
            file = "./src/main.hy"
        "#;
    let m = Manifest::parse(src).unwrap();
    assert_eq!(
        m.roots,
        vec![
            String::from("./src"),
            String::from("./vendor"),
            String::from("./builtins"),
        ]
    );
    assert_eq!(m.entry, Some(String::from("./src/main.hy")));
}

#[test]
fn parse_comments_and_blank_lines() {
    let src = "# only a comment\n\n# another\n[module]\nroots = [\"./src\"] # trailing\n";
    let m = Manifest::parse(src).unwrap();
    assert_eq!(m.roots, vec![String::from("./src")]);
}

#[test]
fn parse_missing_module_section_uses_default() {
    // No `[module]` section: fall back to default roots.
    let src = "[entry]\nfile = \"main.hy\"\n";
    let m = Manifest::parse(src).unwrap();
    assert_eq!(m.roots, vec![String::from("src")]);
    assert_eq!(m.entry, Some(String::from("main.hy")));
}

#[test]
fn parse_invalid_kv_returns_error() {
    let src = "[module]\nthis is not a kv line\n";
    let err = Manifest::parse(src).unwrap_err();
    match err {
        ManifestError::Parse { line, .. } => assert_eq!(line, 2),
        _ => panic!("expected Parse error, got {:?}", err),
    }
}

#[test]
fn parse_unknown_section_returns_error() {
    let src = "[unknown]\nfoo = \"bar\"\n";
    let err = Manifest::parse(src).unwrap_err();
    match err {
        ManifestError::Parse { line, message } => {
            assert_eq!(line, 1);
            assert!(message.contains("unknown section"));
        }
        _ => panic!("expected Parse error, got {:?}", err),
    }
}

#[test]
fn path_to_namespace_strips_extension_and_uses_double_colon() {
    assert_eq!(path_to_namespace("foo.hy"), "foo");
    assert_eq!(
        path_to_namespace("core/ffi/dload.hy"),
        "core::ffi::dload"
    );
    assert_eq!(path_to_namespace("a/b/c.hy"), "a::b::c");
}

#[test]
fn parse_package_and_dependencies() {
    let src = r#"
            [package]
            name = "my_app"
            version = "0.1.0"

            [module]
            roots = ["./src", "./.spool/deps"]

            [dependencies]
            http = { git = "https://github.com/coil-lang/http.git", version = "^0.2" }
            local_http = { path = "../local-http" }
        "#;
    let m = Manifest::parse(src).unwrap();
    assert_eq!(
        m.package,
        Some(PackageInfo {
            name: "my_app".into(),
            version: "0.1.0".into(),
            coil: None,
            include_hook: None,
        })
    );
    assert_eq!(
        m.dependencies,
        vec![
            (
                "http".into(),
                DependencySpec::Git {
                    url: "https://github.com/coil-lang/http.git".into(),
                    version: Some("^0.2".into()),
                    rev: None,
                    trusted: false,
                }
            ),
            (
                "local_http".into(),
                DependencySpec::Path {
                    path: String::from("../local-http"),
                    trusted: false,
                }
            ),
        ]
    );
    assert_eq!(
        m.roots,
        vec![String::from("./src"), String::from("./.spool/deps")]
    );
}

#[test]
fn parse_legacy_manifest_without_package_still_works() {
    let src = "[module]\nroots = [\"./src\"]\n[entry]\nfile = \"./src/main.hy\"\n";
    let m = Manifest::parse(src).unwrap();
    assert!(m.package.is_none());
    assert!(m.dependencies.is_empty());
    assert_eq!(m.scripts, Scripts::default());
    assert_eq!(m.roots, vec![String::from("./src")]);
    assert_eq!(m.entry, Some(String::from("./src/main.hy")));
}

#[test]
fn parse_package_requires_name_and_version() {
    let missing_version = "[package]\nname = \"only_name\"\n";
    match Manifest::parse(missing_version).unwrap_err() {
        ManifestError::MissingKey { section, key } => {
            assert_eq!(section, "package");
            assert_eq!(key, "version");
        }
        other => panic!("expected MissingKey, got {other:?}"),
    }

    let missing_name = "[package]\nversion = \"0.1.0\"\n";
    match Manifest::parse(missing_name).unwrap_err() {
        ManifestError::MissingKey { section, key } => {
            assert_eq!(section, "package");
            assert_eq!(key, "name");
        }
        other => panic!("expected MissingKey, got {other:?}"),
    }

    let empty_package = "[package]\n";
    match Manifest::parse(empty_package).unwrap_err() {
        ManifestError::MissingKey { section, key } => {
            assert_eq!(section, "package");
            assert_eq!(key, "name");
        }
        other => panic!("expected MissingKey, got {other:?}"),
    }
}

#[test]
fn parse_unknown_package_key_errors() {
    let src = "[package]\nname = \"x\"\nversion = \"0.1.0\"\nauthors = \"nope\"\n";
    let err = Manifest::parse(src).unwrap_err();
    match err {
        ManifestError::Parse { message, .. } => {
            assert!(message.contains("unknown key `package.authors`"));
        }
        other => panic!("expected Parse, got {other:?}"),
    }
}

#[test]
fn parse_unknown_module_preludes_key_errors() {
    // A dropped key must stay a hard unknown-key error.
    let src = "[module]\nroots = [\"./src\"]\npreludes = [\"./stdlib/src\"]\n";
    match Manifest::parse(src).unwrap_err() {
        ManifestError::Parse { line, message } => {
            assert_eq!(line, 3);
            assert!(
                message.contains("unknown key `module.preludes`"),
                "got {message}"
            );
        }
        other => panic!("expected Parse, got {other:?}"),
    }
}

#[test]
fn parse_unknown_module_strict_key_errors() {
    // A dropped key must stay a hard unknown-key error.
    let src = "[module]\nroots = [\"./src\"]\nstrict = true\n";
    match Manifest::parse(src).unwrap_err() {
        ManifestError::Parse { line, message } => {
            assert_eq!(line, 3);
            assert!(
                message.contains("unknown key `module.strict`"),
                "got {message}"
            );
        }
        other => panic!("expected Parse, got {other:?}"),
    }
}

#[test]
fn parse_unknown_module_prelude_singular_key_errors() {
    // Singular spelling must not become a backdoor for dropped `preludes`.
    let src = "[module]\nroots = [\"./src\"]\nprelude = [\"./stdlib/src\"]\n";
    match Manifest::parse(src).unwrap_err() {
        ManifestError::Parse { line, message } => {
            assert_eq!(line, 3);
            assert!(
                message.contains("unknown key `module.prelude`"),
                "got {message}"
            );
        }
        other => panic!("expected Parse, got {other:?}"),
    }
}

#[test]
fn parse_dependency_git_without_version() {
    let src = r#"
            [dependencies]
            http = { git = "https://example.com/http.git" }
        "#;
    let m = Manifest::parse(src).unwrap();
    assert_eq!(
        m.dependencies,
        vec![(
            "http".into(),
            DependencySpec::Git {
                url: "https://example.com/http.git".into(),
                version: None,
                rev: None,
                trusted: false,
            }
        )]
    );
}

#[test]
fn parse_dependency_git_accepts_rev() {
    let src = r#"
            [dependencies]
            http = { git = "https://example.com/http.git", rev = "abc123" }
        "#;
    let m = Manifest::parse(src).unwrap();
    assert_eq!(
        m.dependencies,
        vec![(
            "http".into(),
            DependencySpec::Git {
                url: "https://example.com/http.git".into(),
                version: None,
                rev: Some("abc123".into()),
                trusted: false,
            }
        )]
    );
}

#[test]
fn parse_dependency_git_accepts_version_and_rev() {
    let src = r#"
            [dependencies]
            http = { git = "https://example.com/http.git", version = "^0.2", rev = "abc123" }
        "#;
    let m = Manifest::parse(src).unwrap();
    assert_eq!(
        m.dependencies,
        vec![(
            "http".into(),
            DependencySpec::Git {
                url: "https://example.com/http.git".into(),
                version: Some("^0.2".into()),
                rev: Some("abc123".into()),
                trusted: false,
            }
        )]
    );
}

#[test]
fn parse_dependency_rejects_git_and_path_together() {
    let src = r#"
            [dependencies]
            http = { git = "https://example.com/http.git", version = "^1", path = "../x" }
        "#;
    let err = Manifest::parse(src).unwrap_err();
    match err {
        ManifestError::Parse { message, .. } => {
            assert!(message.contains("expected dependency table"));
        }
        other => panic!("expected Parse, got {other:?}"),
    }
}

#[test]
fn parse_dependency_rejects_unknown_inline_key() {
    let src = r#"
            [dependencies]
            http = { git = "https://example.com/http.git", version = "^1", branch = "main" }
        "#;
    let err = Manifest::parse(src).unwrap_err();
    match err {
        ManifestError::Parse { message, .. } => {
            assert!(message.contains("expected dependency table"));
        }
        other => panic!("expected Parse, got {other:?}"),
    }
}

#[test]
fn parse_dependency_rejects_version_without_git() {
    let src = r#"
            [dependencies]
            http = { version = "^1" }
        "#;
    let err = Manifest::parse(src).unwrap_err();
    match err {
        ManifestError::Parse { message, .. } => {
            assert!(message.contains("expected dependency table"));
        }
        other => panic!("expected Parse, got {other:?}"),
    }
}

#[test]
fn parse_dependency_rejects_path_with_version() {
    let src = r#"
            [dependencies]
            http = { path = "../x", version = "^1" }
        "#;
    let err = Manifest::parse(src).unwrap_err();
    match err {
        ManifestError::Parse { message, .. } => {
            assert!(message.contains("expected dependency table"));
        }
        other => panic!("expected Parse, got {other:?}"),
    }
}

#[test]
fn parse_dependency_rejects_path_with_rev() {
    let src = r#"
            [dependencies]
            http = { path = "../x", rev = "abc123" }
        "#;
    let err = Manifest::parse(src).unwrap_err();
    match err {
        ManifestError::Parse { message, .. } => {
            assert!(message.contains("expected dependency table"));
        }
        other => panic!("expected Parse, got {other:?}"),
    }
}

#[test]
fn parse_dependency_rejects_empty_inline_table_and_bare_string() {
    let empty = "[dependencies]\nhttp = { }\n";
    match Manifest::parse(empty).unwrap_err() {
        ManifestError::Parse { message, .. } => {
            assert!(message.contains("expected dependency table"));
        }
        other => panic!("expected Parse, got {other:?}"),
    }

    let bare = "[dependencies]\nhttp = \"^1.0\"\n";
    match Manifest::parse(bare).unwrap_err() {
        ManifestError::Parse { message, .. } => {
            assert!(message.contains("expected dependency table"));
        }
        other => panic!("expected Parse, got {other:?}"),
    }
}

#[test]
fn parse_dependency_git_accepts_version_before_git() {
    let src = r#"
            [dependencies]
            http = { version = "^0.2", git = "https://example.com/http.git" }
        "#;
    let m = Manifest::parse(src).unwrap();
    assert_eq!(
        m.dependencies,
        vec![(
            "http".into(),
            DependencySpec::Git {
                url: "https://example.com/http.git".into(),
                version: Some("^0.2".into()),
                rev: None,
                trusted: false,
            }
        )]
    );
}

#[test]
fn parse_duplicate_package_keys_errors() {
    let dup_name = "[package]\nname = \"a\"\nname = \"b\"\nversion = \"0.1.0\"\n";
    match Manifest::parse(dup_name).unwrap_err() {
        ManifestError::Parse { message, .. } => {
            assert!(message.contains("duplicate key `package.name`"));
        }
        other => panic!("expected Parse, got {other:?}"),
    }

    let dup_version = "[package]\nname = \"a\"\nversion = \"0.1.0\"\nversion = \"0.2.0\"\n";
    match Manifest::parse(dup_version).unwrap_err() {
        ManifestError::Parse { message, .. } => {
            assert!(message.contains("duplicate key `package.version`"));
        }
        other => panic!("expected Parse, got {other:?}"),
    }
}

#[test]
fn parse_package_rejects_non_string_values() {
    let bad_name = "[package]\nname = 1\nversion = \"0.1.0\"\n";
    match Manifest::parse(bad_name).unwrap_err() {
        ManifestError::Parse { message, .. } => {
            assert!(message.contains("expected string"));
        }
        other => panic!("expected Parse, got {other:?}"),
    }

    let bad_version = "[package]\nname = \"a\"\nversion = true\n";
    match Manifest::parse(bad_version).unwrap_err() {
        ManifestError::Parse { message, .. } => {
            assert!(message.contains("expected string"));
        }
        other => panic!("expected Parse, got {other:?}"),
    }
}

#[test]
fn parse_duplicate_dependency_errors() {
    let src = r#"
            [dependencies]
            http = { path = "../a" }
            http = { path = "../b" }
        "#;
    let err = Manifest::parse(src).unwrap_err();
    match err {
        ManifestError::Parse { message, .. } => {
            assert!(message.contains("duplicate dependency `http`"));
        }
        other => panic!("expected Parse, got {other:?}"),
    }
}

#[test]
fn parse_unknown_section_still_errors() {
    let src = "[registry]\nurl = \"https://example.com\"\n";
    let err = Manifest::parse(src).unwrap_err();
    match err {
        ManifestError::Parse { message, .. } => {
            assert!(message.contains("unknown section"));
        }
        other => panic!("expected Parse, got {other:?}"),
    }
}

#[test]
fn parse_scripts_section_accepts_all_keys() {
    let src = r#"
            [scripts]
            pre_install = "./scripts/pre-install.sh"
            post_install = "./scripts/post-install.sh"
            pre_update = "./scripts/pre-update.sh"
            post_update = "./scripts/post-update.sh"
        "#;
    let m = Manifest::parse(src).unwrap();
    assert_eq!(
        m.scripts,
        Scripts {
            pre_install: Some(String::from("./scripts/pre-install.sh")),
            post_install: Some(String::from("./scripts/post-install.sh")),
            pre_update: Some(String::from("./scripts/pre-update.sh")),
            post_update: Some(String::from("./scripts/post-update.sh")),
        }
    );
}

#[test]
fn parse_scripts_missing_keys_are_none() {
    let src = r#"
            [scripts]
            post_install = "./hooks/after.sh"
        "#;
    let m = Manifest::parse(src).unwrap();
    assert_eq!(
        m.scripts.pre_install, None,
        "omitted scripts keys must stay None"
    );
    assert_eq!(
        m.scripts.post_install,
        Some(String::from("./hooks/after.sh"))
    );
    assert_eq!(m.scripts.pre_update, None);
    assert_eq!(m.scripts.post_update, None);
}

#[test]
fn parse_unknown_scripts_key_errors() {
    let src = "[scripts]\npre_build = \"./nope.sh\"\n";
    match Manifest::parse(src).unwrap_err() {
        ManifestError::Parse { message, .. } => {
            assert!(
                message.contains("unknown key `scripts.pre_build`"),
                "got {message}"
            );
        }
        other => panic!("expected Parse, got {other:?}"),
    }
}

#[test]
fn parse_duplicate_scripts_key_errors() {
    let src = "[scripts]\npre_install = \"./a.sh\"\npre_install = \"./b.sh\"\n";
    match Manifest::parse(src).unwrap_err() {
        ManifestError::Parse { message, .. } => {
            assert!(
                message.contains("duplicate key `scripts.pre_install`"),
                "got {message}"
            );
        }
        other => panic!("expected Parse, got {other:?}"),
    }
}

#[test]
fn parse_hooks_section_is_unknown() {
    let src = "[hooks]\ninclude = \"./hooks/include.sh\"\n";
    match Manifest::parse(src).unwrap_err() {
        ManifestError::Parse { message, .. } => {
            assert!(message.contains("unknown section"), "got {message}");
        }
        other => panic!("expected Parse, got {other:?}"),
    }
}

#[test]
fn parse_package_include_accepts_string_path() {
    let src = r#"
            [package]
            name = "native-bits"
            version = "0.1.0"
            include = "./hooks/include.sh"
        "#;
    let m = Manifest::parse(src).unwrap();
    let pkg = m.package.expect("package");
    assert_eq!(pkg.name, "native-bits");
    assert_eq!(pkg.include_hook, Some(String::from("./hooks/include.sh")));
    assert_eq!(pkg.coil, None);
}

#[test]
fn parse_package_coil_accepts_semver_range() {
    let src = r#"
            [package]
            name = "http"
            version = "0.1.0"
            coil = ">=0.1.0"
        "#;
    let m = Manifest::parse(src).unwrap();
    let pkg = m.package.expect("package");
    assert_eq!(pkg.coil.as_deref(), Some(">=0.1.0"));
    assert_eq!(pkg.include_hook, None);
}

#[test]
fn parse_package_coil_and_include_together() {
    let src = r#"
            [package]
            name = "http"
            version = "0.1.0"
            coil = ">=0.1.0"
            include = "./hooks/include.sh"
        "#;
    let m = Manifest::parse(src).unwrap();
    let pkg = m.package.expect("package");
    assert_eq!(pkg.coil.as_deref(), Some(">=0.1.0"));
    assert_eq!(pkg.include_hook, Some(String::from("./hooks/include.sh")));
    assert_eq!(m.scripts, Scripts::default());
}

#[test]
fn parse_unknown_package_key_still_errors_with_new_fields() {
    let src = "[package]\nname = \"x\"\nversion = \"0.1.0\"\ncoil = \">=0.1.0\"\nauthors = \"nope\"\n";
    match Manifest::parse(src).unwrap_err() {
        ManifestError::Parse { message, .. } => {
            assert!(
                message.contains("unknown key `package.authors`"),
                "got {message}"
            );
        }
        other => panic!("expected Parse, got {other:?}"),
    }
}

#[test]
fn parse_omit_scripts_include_and_coil_still_works() {
    let src = r#"
            [package]
            name = "my_app"
            version = "0.1.0"

            [module]
            roots = ["./src"]
        "#;
    let m = Manifest::parse(src).unwrap();
    let pkg = m.package.expect("package");
    assert_eq!(pkg.name, "my_app");
    assert_eq!(pkg.version, "0.1.0");
    assert_eq!(pkg.coil, None);
    assert_eq!(pkg.include_hook, None);
    assert_eq!(m.scripts, Scripts::default());
}

#[test]
fn parse_package_still_requires_name_and_version_with_coil() {
    let src = "[package]\ncoil = \">=0.1.0\"\n";
    match Manifest::parse(src).unwrap_err() {
        ManifestError::MissingKey { section, key } => {
            assert_eq!(section, "package");
            assert_eq!(key, "name");
        }
        other => panic!("expected MissingKey, got {other:?}"),
    }
}

#[test]
fn parse_duplicate_package_coil_and_include_errors() {
    let dup_coil =
        "[package]\nname = \"a\"\nversion = \"0.1.0\"\ncoil = \">=0.1.0\"\ncoil = \"^0.2\"\n";
    match Manifest::parse(dup_coil).unwrap_err() {
        ManifestError::Parse { message, .. } => {
            assert!(
                message.contains("duplicate key `package.coil`"),
                "got {message}"
            );
        }
        other => panic!("expected Parse, got {other:?}"),
    }

    let dup_include = "[package]\nname = \"a\"\nversion = \"0.1.0\"\ninclude = \"./a.sh\"\ninclude = \"./b.sh\"\n";
    match Manifest::parse(dup_include).unwrap_err() {
        ManifestError::Parse { message, .. } => {
            assert!(
                message.contains("duplicate key `package.include`"),
                "got {message}"
            );
        }
        other => panic!("expected Parse, got {other:?}"),
    }
}

fn with_roots(roots: Vec<String>) -> Manifest {
    Manifest {
        roots,
        entry: None,
        ffi_search_paths: Vec::new(),
        allow_exec: true,
        package: None,
        dependencies: Vec::new(),
        scripts: Scripts::default(),
    }
}

#[test]
fn resolve_use_finds_file_in_first_root() {
    let tmp = "/tmp/coil_manifest_test_1";
    let present = vec![format!("{tmp}/src/foo/sadge.hy")];

    let m = Manifest::default();
    let resolved = m.resolve_use(tmp, &["foo".into()], "sadge", &present);
    assert!(
        resolved.is_some(),
        "expected to find sadge.hy in <tmp>/src/foo/"
    );
    let resolved = resolved.unwrap();
    assert!(resolved.ends_with("src/foo/sadge.hy"));
}

#[test]
fn resolve_use_falls_back_to_second_root() {
    let tmp = "/tmp/coil_manifest_test_2";
    let present = vec![format!("{tmp}/vendor/lib_x/foo.hy")];

    let m = with_roots(vec![String::from("src"), String::from("vendor")]);
    let resolved = m.resolve_use(tmp, &["lib_x".into()], "foo", &present);
    assert!(
        resolved.is_some(),
        "expected to find foo.hy in vendor/lib_x/"
    );
    let resolved = resolved.unwrap();
    assert!(resolved.ends_with("vendor/lib_x/foo.hy"));
}

#[test]
fn resolve_use_falls_back_to_module_file() {
    let tmp = "/tmp/coil_manifest_test_module_file";
    let present = vec![format!("{tmp}/src/foo.hy")];

    let m = Manifest::default();
    let resolved = m.resolve_use(tmp, &["foo".into()], "sadge", &present);
    assert!(
        resolved.is_some(),
        "expected to fall back to <tmp>/src/foo.hy"
    );
    assert!(resolved.unwrap().ends_with("src/foo.hy"));
}

#[test]
fn resolve_use_prefers_one_item_file_over_module_file() {
    let tmp = "/tmp/coil_manifest_test_prefers_a";
    let present = vec![
        format!("{tmp}/src/foo.hy"),
        format!("{tmp}/src/foo/sadge.hy"),
    ];

    let m = Manifest::default();
    let resolved = m.resolve_use(tmp, &["foo".into()], "sadge", &present);
    assert!(resolved.is_some());
    let path = resolved.unwrap();
    assert!(
        path.ends_with("src/foo/sadge.hy"),
        "expected the file of the item, got {path}"
    );
}

#[test]
fn resolve_use_returns_none_when_missing() {
    let tmp = "/tmp/coil_manifest_test_3";
    let m = Manifest::default();
    let resolved = m.resolve_use(tmp, &["nonexistent".into()], "missing", &Vec::new());
    assert!(resolved.is_none());
}

#[test]
fn resolve_mod_finds_top_level_file() {
    let tmp = "/tmp/coil_manifest_test_resolve_mod";
    let present = vec![format!("{tmp}/src/foo.hy")];

    let m = Manifest::default();
    let resolved = m.resolve_mod(tmp, "foo", &present);
    assert!(resolved.is_some());
    assert!(resolved.unwrap().ends_with("src/foo.hy"));
}

#[test]
fn namespace_of_returns_path_relative_to_root() {
    let tmp = "/tmp/coil_manifest_test_4";
    let file = format!("{tmp}/builtins/core/ffi/dload.hy");

    let m = with_roots(vec![String::from("src"), String::from("builtins")]);
    let ns = m.namespace_of(tmp, &file);
    assert_eq!(ns, Some("core::ffi::dload".to_string()));
}

#[test]
fn namespace_of_returns_none_for_file_outside_all_roots() {
    let tmp = "/tmp/coil_manifest_test_5";
    let file = format!("{tmp}/totally/elsewhere/x.hy");

    let m = with_roots(vec![String::from("src")]);
    let ns = m.namespace_of(tmp, &file);
    assert_eq!(ns, None);
}

#[test]
fn hash_inside_quotes_is_text() {
    let m = Manifest::parse("[entry]\nfile = \"a#b.hy\"").unwrap();
    assert_eq!(m.entry, Some(String::from("a#b.hy")));
    let m = Manifest::parse("[entry]\nfile = \"a#b.hy\" # the \"main\" file").unwrap();
    assert_eq!(m.entry, Some(String::from("a#b.hy")));
    let m = Manifest::parse("[scripts]\npre_install = \"./hooks/#1.hy\"").unwrap();
    assert_eq!(m.scripts.pre_install, Some(String::from("./hooks/#1.hy")));
}

#[test]
fn hash_after_a_closed_string_starts_a_comment() {
    let m = Manifest::parse("[module]\nroots = [\"a\", \"b\"] # \"c\"").unwrap();
    assert_eq!(m.roots, vec![String::from("a"), String::from("b")]);
}

#[test]
fn env_allow_exec_true_is_read() {
    let m = Manifest::parse("[env]\nallow_exec = true\n").unwrap();
    assert!(m.allow_exec);
}

#[test]
fn env_allow_exec_false_is_read() {
    let m = Manifest::parse("[env]\nallow_exec = false\n").unwrap();
    assert!(!m.allow_exec);
    let m = Manifest::parse("[env]\n").unwrap();
    assert!(!m.allow_exec);
    assert!(matches!(Manifest::parse("[env]\nallow_exec = maybe\n"), Err(_)));
}
