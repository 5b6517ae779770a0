//! Class files, and the map between classes and source files.

use dapintar::class_file::{parse_class_info, ClassError};
use dapintar::files::{Entry, Tree};
use dapintar::source_map::{
    build_source_map, file_package_matches, paths_to_probe, SourceMap,
};

fn put16(b: &mut Vec<u8>, n: usize) {
    b.push((n / 256) as u8);
    b.push((n % 256) as u8);
}

fn put_text(b: &mut Vec<u8>, s: &str) {
    b.push(1);
    put16(b, s.len());
    b.extend_from_slice(s.as_bytes());
}

/// The head of a class file: up to its constants, of which the first `n` are these.
fn head(count: usize) -> Vec<u8> {
    let mut b = vec![0xca, 0xfe, 0xba, 0xbe, 0, 0, 0, 61];
    put16(&mut b, count);
    b
}

/// A class file with one field, one method and a source file.
fn class_file(name: &str, source: Option<&str>) -> Vec<u8> {
    let mut b = head(9);
    put_text(&mut b, name);
    b.extend_from_slice(&[7, 0, 1]);
    put_text(&mut b, "java/lang/Object");
    b.extend_from_slice(&[7, 0, 3]);
    put_text(&mut b, "SourceFile");
    put_text(&mut b, source.unwrap_or("none"));
    // A long takes two places.
    b.extend_from_slice(&[5, 0, 0, 0, 0, 0, 0, 0, 42]);
    // Access, this class, its superclass, one interface.
    b.extend_from_slice(&[0, 33, 0, 2, 0, 4, 0, 1, 0, 4]);
    // One field with one attribute of three bytes, and one method with none.
    b.extend_from_slice(&[0, 1, 0, 0, 0, 1, 0, 1, 0, 1, 0, 1, 0, 0, 0, 3, 9, 9, 9]);
    b.extend_from_slice(&[0, 1, 0, 0, 0, 1, 0, 1, 0, 0]);
    match source {
        None => b.extend_from_slice(&[0, 0]),
        Some(_) => b.extend_from_slice(&[0, 2, 0, 1, 0, 0, 0, 1, 7, 0, 5, 0, 0, 0, 2, 0, 6]),
    }
    b
}

fn class_entry(name: &str, source: &str) -> Entry {
    let simple = name.rsplit('/').next().unwrap();
    Entry::File { name: format!("{simple}.class"), bytes: Ok(class_file(name, Some(source))) }
}

fn file(name: &str, text: &str) -> Entry {
    Entry::File { name: name.to_string(), bytes: Ok(text.as_bytes().to_vec()) }
}

fn dir(name: &str, entries: Vec<Entry>) -> Entry {
    Entry::Dir { name: name.to_string(), entries }
}

fn tree(path: &str, entries: Vec<Entry>) -> Tree {
    Tree { path: path.to_string(), entries }
}

/// The map of a project of one Java source file, whose classes are the given ones.
fn java_map(root: &str, source: &str, classes: &[&str]) -> SourceMap {
    let out = tree(
        &format!("{root}/build/classes/java/main"),
        classes.iter().map(|c| class_entry(c, source)).collect(),
    );
    let src = tree(&format!("{root}/src/main/java"), vec![file(source, "public class C {}")]);
    let there = format!("{root}/src/main/java/{source}");
    let probed = paths_to_probe(&[out], &[src]);
    assert!(probed.iter().all(|p| *p == there));
    let out = tree(
        &format!("{root}/build/classes/java/main"),
        classes.iter().map(|c| class_entry(c, source)).collect(),
    );
    let src = tree(&format!("{root}/src/main/java"), vec![file(source, "public class C {}")]);
    build_source_map(&[out], &[src], &[there])
}

fn inner_class_map() -> SourceMap {
    java_map(
        "/fixtures/inner_class_java",
        "OuterClass.java",
        &["OuterClass", "OuterClass$InnerClass", "OuterClass$1"],
    )
}

#[test]
fn test_java_class_maps_to_source_file() {
    let map = java_map("/fixtures/simple_java", "Main.java", &["Main"]);
    let source = map.source_for_class("Main").expect("Main not in source map");
    assert!(source.ends_with("src/main/java/Main.java"), "unexpected source path: {source:?}");
}

#[test]
fn test_inner_class_maps_to_outer_source_file() {
    let map = inner_class_map();

    let outer_source = map.source_for_class("OuterClass").expect("OuterClass not in source map");
    assert!(
        outer_source.ends_with("OuterClass.java"),
        "outer source unexpected: {outer_source:?}"
    );

    let inner_source = map
        .source_for_class("OuterClass$InnerClass")
        .expect("OuterClass$InnerClass not in source map");
    assert_eq!(outer_source, inner_source, "inner class should map to same source file as outer");
}

#[test]
fn test_anonymous_class_maps_to_outer_source_file() {
    let map = inner_class_map();

    let outer_source = map.source_for_class("OuterClass").expect("OuterClass not in source map");
    let anon_source =
        map.source_for_class("OuterClass$1").expect("OuterClass$1 not in source map");
    assert_eq!(
        outer_source, anon_source,
        "anonymous class should map to same source file as outer"
    );
}

#[test]
fn test_classes_for_source_returns_all_classes() {
    let map = inner_class_map();

    let outer_source =
        map.source_for_class("OuterClass").expect("OuterClass not in source map").to_string();

    let classes = map.classes_for_source(&outer_source);
    let mut names: Vec<_> = classes.iter().map(String::as_str).collect();
    names.sort();

    assert!(names.contains(&"OuterClass"), "OuterClass missing from source lookup: {names:?}");
    assert!(
        names.iter().any(|n| n.starts_with("OuterClass$")),
        "inner/anonymous class missing from source lookup: {names:?}"
    );
    assert_eq!(names, vec!["OuterClass", "OuterClass$1", "OuterClass$InnerClass"]);
}

#[test]
fn class_file_gives_name_and_source() {
    assert_eq!(
        parse_class_info(&class_file("com/example/Main", Some("Main.java"))),
        Ok(("com/example/Main".to_string(), Some("Main.java".to_string())))
    );
    assert_eq!(
        parse_class_info(&class_file("com/example/Main", None)),
        Ok(("com/example/Main".to_string(), None))
    );
}

#[test]
fn broken_class_files_are_errors() {
    assert_eq!(parse_class_info(&[]), Err(ClassError::Underrun));
    assert_eq!(parse_class_info(&[0xca, 0xfe, 0xba, 0xbf, 0, 0, 0, 0]), Err(ClassError::NotAClassFile));
    let whole = class_file("A", Some("A.java"));
    for n in 0..whole.len() {
        assert!(parse_class_info(&whole[..n]).is_err(), "cut at {n}");
    }

    let mut b = head(2);
    b.push(99);
    assert_eq!(parse_class_info(&b), Err(ClassError::UnknownTag(99)));

    let mut b = head(2);
    put_text(&mut b, "A");
    b.extend_from_slice(&[0, 0, 0, 1, 0, 0]);
    assert_eq!(parse_class_info(&b), Err(ClassError::NoThisClass));

    let mut b = head(2);
    b.extend_from_slice(&[7, 0, 9]);
    b.extend_from_slice(&[0, 0, 0, 1, 0, 0]);
    assert_eq!(parse_class_info(&b), Err(ClassError::NoClassName));

    let mut b = head(3);
    put_text(&mut b, "A");
    b.extend_from_slice(&[7, 0, 1]);
    // No interfaces, one field whose attribute is longer than the file.
    b.extend_from_slice(&[0, 0, 0, 2, 0, 0, 0, 0]);
    b.extend_from_slice(&[0, 1, 0, 0, 0, 1, 0, 1, 0, 1, 0, 1, 0, 0, 0, 9, 1]);
    assert_eq!(parse_class_info(&b), Err(ClassError::AttributeOverflow));
}

#[test]
fn class_names_that_are_no_text_are_replaced() {
    let mut b = head(3);
    b.extend_from_slice(&[1, 0, 2, 0x41, 0xff]);
    b.extend_from_slice(&[7, 0, 1]);
    b.extend_from_slice(&[0, 0, 0, 2, 0, 0, 0, 0, 0, 0, 0, 0, 0, 0]);
    assert_eq!(parse_class_info(&b), Ok(("A\u{fffd}".to_string(), None)));
}

#[test]
fn map_works_in_both_directions() {
    let mut map = SourceMap::new();
    assert!(map.is_empty());
    map.insert("a/B".to_string(), "/s/a/B.java".to_string());
    map.insert("a/B$1".to_string(), "/s/a/B.java".to_string());
    map.insert("C".to_string(), "/s/C.kt".to_string());
    assert!(!map.is_empty());
    assert_eq!(map.source_for_class("a/B$1"), Some("/s/a/B.java"));
    assert_eq!(map.source_for_class("a/C"), None);
    assert_eq!(map.classes_for_source("/s/a/B.java"), ["a/B".to_string(), "a/B$1".to_string()]);
    // The same path, written otherwise.
    assert_eq!(map.classes_for_source("/s//a/./B.java/").len(), 2);
    assert_eq!(map.classes_for_source("/s/a/b.java").len(), 0);
    // A class that is put in again is found at its new place.
    map.insert("C".to_string(), "/t/C.kt".to_string());
    assert_eq!(map.source_for_class("C"), Some("/t/C.kt"));
    assert_eq!(map.classes_for_source("/t/C.kt"), ["C".to_string()]);
    assert_eq!(map.classes_for_source("/s/C.kt").len(), 0);
    // It is listed once.
    map.insert("a/B".to_string(), "/s/a/B.java".to_string());
    assert_eq!(map.classes_for_source("/s/a/B.java"), ["a/B$1".to_string(), "a/B".to_string()]);
}

#[test]
fn bytes_behind_a_class_file_do_not_matter() {
    let mut b = class_file("A", Some("A.java"));
    b.extend_from_slice(&[1, 2, 3]);
    assert_eq!(parse_class_info(&b), Ok(("A".to_string(), Some("A.java".to_string()))));
}

#[test]
fn package_is_declared_behind_comments() {
    let declares = |text: &str, package: &str| {
        let package: Vec<char> = package.chars().collect();
        file_package_matches(&Ok(text.as_bytes().to_vec()), &package)
    };
    assert!(declares("/*\nLicense text\n*/\npackage a.b\n", "a.b"));
    assert!(!declares("/*\nLicense text\n*/\npackage a.b\n", ""));
    assert!(declares("/**\n * package x\n */\n\npackage a.b;", "a.b"));
    assert!(declares("// one\n/* two */ /* three\npackage c */ package\ta.b ; // four", "a.b"));
    assert!(declares("package a.b; class C {}", "a.b"));
    assert!(declares("package a.b;;\r\n", "a.b"));
    assert!(declares("* loose\npackage a.b", "a.b"));
    // The first line with anything on it decides.
    assert!(declares("import x\npackage a.b", ""));
    assert!(!declares("import x\npackage a.b", "a.b"));
    assert!(declares("packages = 1", ""));
    assert!(declares("/* package a.b", ""));
    assert!(declares("", ""));
    assert!(!file_package_matches(&Err("no access".to_string()), &[]));
}

#[test]
fn java_source_is_looked_for_in_the_package_directory() {
    let out = || {
        tree(
            "/out",
            vec![dir("com", vec![dir("example", vec![class_entry("com/example/Main", "Main.java")])])],
        )
    };
    let roots = || vec![tree("/a", vec![]), tree("/b", vec![])];
    assert_eq!(
        paths_to_probe(&[out()], &roots()),
        vec!["/a/com/example/Main.java".to_string(), "/b/com/example/Main.java".to_string()]
    );
    let map = build_source_map(&[out()], &roots(), &["/b/com/example/Main.java".to_string()]);
    assert_eq!(map.source_for_class("com/example/Main"), Some("/b/com/example/Main.java"));
    let both = ["/b/com/example/Main.java".to_string(), "/a/com/example/Main.java".to_string()];
    let map = build_source_map(&[out()], &roots(), &both);
    assert_eq!(map.source_for_class("com/example/Main"), Some("/a/com/example/Main.java"));
    assert!(build_source_map(&[out()], &roots(), &[]).is_empty());
}

#[test]
fn kotlin_and_groovy_sources_are_told_by_their_package() {
    let out = tree(
        "/out",
        vec![
            class_entry("com/example/AppKt", "App.kt"),
            class_entry("Script", "Script.groovy"),
            class_entry("com/example/Tool", "Tool.scala"),
        ],
    );
    let src = tree(
        "/src",
        vec![
            dir("other", vec![file("App.kt", "package com.other\nfun main() {}\n")]),
            dir("flat", vec![file("App.kt", "// note\n  package com.example \nfun main() {}\n")]),
            file("Script.groovy", "println 'hi'\n"),
            file("Tool.scala", "package com.example"),
        ],
    );
    let map = build_source_map(&[out], &[src], &[]);
    assert_eq!(map.source_for_class("com/example/AppKt"), Some("/src/flat/App.kt"));
    assert_eq!(map.source_for_class("Script"), Some("/src/Script.groovy"));
    assert_eq!(map.source_for_class("com/example/Tool"), None);
}
