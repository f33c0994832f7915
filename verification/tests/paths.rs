//! Paths, texts and ordered maps.
use compiler::idmap::IdMap;
use compiler::manifest::{Manifest, ManifestError};
use compiler::order::{sort_blocks, sort_keyed};
use compiler::paths::{components, join_path, path_to_namespace, Component};
use compiler::reach::close;
use compiler::scan::{find_lines, split, split_once, trim};
use compiler::text::dec_str;
use compiler::mir::BlockId;

#[test]
fn joining_puts_one_separator() {
    assert_eq!(join_path("a", "b"), "a/b");
    assert_eq!(join_path("a/", "b"), "a/b");
    assert_eq!(join_path("", "b"), "b");
    assert_eq!(join_path("a", "/b"), "/b");
}

#[test]
fn paths_are_split_into_steps() {
    assert_eq!(
        components("/a//b/../c"),
        vec![
            Component::Root,
            Component::Normal("a".into()),
            Component::Normal("b".into()),
            Component::Parent,
            Component::Normal("c".into()),
        ]
    );
    assert_eq!(
        components("./a/./b"),
        vec![
            Component::Current,
            Component::Normal("a".into()),
            Component::Normal("b".into()),
        ]
    );
}

#[test]
fn namespaces_drop_the_last_extension_only() {
    assert_eq!(path_to_namespace("core/ffi/dload.hy"), "core::ffi::dload");
    assert_eq!(path_to_namespace("a/b.tar.hy"), "a::b.tar");
}

#[test]
fn candidates_come_in_root_order() {
    let mut m = Manifest::default();
    m.roots = vec!["src".into(), "vendor".into()];
    assert_eq!(
        m.use_candidates("/p", &["a".to_string(), "b".to_string()], "c"),
        vec![
            "/p/src/a/b/c.hy",
            "/p/vendor/a/b/c.hy",
            "/p/src/a/b.hy",
            "/p/vendor/a/b.hy"
        ]
    );
    assert_eq!(m.mod_candidates("/p", "c"), vec!["/p/src/c.hy", "/p/vendor/c.hy"]);
    assert_eq!(m.use_candidates("/p", &[], "c"), vec!["/p/src/c.hy", "/p/vendor/c.hy"]);
}

#[test]
fn resolved_files_are_present_candidates() {
    let m = Manifest::default();
    let path = ["a".to_string()];
    let here = vec!["/p/src/a.hy".to_string(), "/q/src/a/b.hy".to_string()];
    assert_eq!(m.resolve_use("/p", &path, "b", &here), Some("/p/src/a.hy".to_string()));
    assert_eq!(m.resolve_use("/r", &path, "b", &here), None);
}

#[test]
fn source_without_content_is_the_default() {
    assert_eq!(Manifest::parse("").unwrap(), Manifest::default());
    assert_eq!(Manifest::parse("# a\n\n   # b\n").unwrap(), Manifest::default());
}

#[test]
fn blank_lines_and_comments_change_nothing() {
    let a = Manifest::parse("[module]\nroots = [\"x\"]\n").unwrap();
    let b = Manifest::parse("# top\n  [module]  # section\n\n roots = [\"x\"]   # trailing\n\n").unwrap();
    assert_eq!(a, b);
}

#[test]
fn manifest_errors_have_messages() {
    assert_eq!(
        ManifestError::Io("gone".into()).message(),
        "manifest I/O error: gone"
    );
    assert_eq!(
        ManifestError::Parse { line: 3, message: "odd".into() }.message(),
        "manifest parse error at line 3: odd"
    );
    assert_eq!(
        ManifestError::MissingSection("entry").message(),
        "missing manifest section: [entry]"
    );
    assert_eq!(
        ManifestError::MissingKey { section: "package", key: "name" }.message(),
        "missing manifest key: package.name"
    );
}

#[test]
fn text_is_trimmed_and_split() {
    assert_eq!(trim(" \t a b \n"), "a b");
    assert_eq!(split_once("a=b=c", '='), Some(("a", "b=c")));
    assert_eq!(split_once("abc", '='), None);
    assert_eq!(split("a,,b", ','), vec!["a", "", "b"]);
    assert_eq!(find_lines("ab\n\ncd"), vec![(0, 2), (3, 3), (4, 6)]);
    assert_eq!(dec_str(0), "0");
    assert_eq!(dec_str(u64::MAX), "18446744073709551615");
}

#[test]
fn sorting_orders_and_keeps_the_elements() {
    let s = vec![BlockId(3), BlockId(1), BlockId(2), BlockId(1)];
    assert_eq!(sort_blocks(&s), vec![BlockId(1), BlockId(1), BlockId(2), BlockId(3)]);
    assert_eq!(
        sort_keyed(&vec![(0, 5), (1, 2), (2, 5), (3, 2)]),
        vec![(1, 2), (3, 2), (0, 5), (2, 5)]
    );
}

#[test]
fn maps_list_their_keys_once_in_order() {
    let mut m = IdMap::new();
    m.insert(7, 'a');
    m.insert(2, 'b');
    m.insert(7, 'c');
    assert_eq!(m.keys(), vec![2, 7]);
    assert_eq!(m.len(), 2);
    assert_eq!(m.get(&7), Some(&'c'));
    assert_eq!(m.entry_at(0), (2, &'b'));
    assert_eq!(m.remove(&2), Some('b'));
    assert_eq!(m.remove(&2), None);
    assert!(!m.contains_key(&2));
    assert!(!m.is_empty());
}

#[test]
fn reaching_follows_edges_and_no_others() {
    let mut marks = vec![true, false, false, false, false];
    close(&mut marks, &vec![(1, 2), (0, 1), (3, 4)]);
    assert_eq!(marks, vec![true, true, true, false, false]);
}
