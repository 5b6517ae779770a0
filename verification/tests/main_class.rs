//! Main classes, found in source trees.

use dapintar::files::{Entry, Tree};
use dapintar::main_class::{
    derive_fqn, find_main_classes, has_groovy_main, has_java_main, has_kotlin_main,
};

fn file(name: &str, text: &str) -> Entry {
    Entry::File { name: name.to_string(), bytes: Ok(text.as_bytes().to_vec()) }
}

fn dir(name: &str, entries: Vec<Entry>) -> Entry {
    Entry::Dir { name: name.to_string(), entries }
}

fn root(entries: Vec<Entry>) -> Tree {
    Tree { path: "/tmp/project".to_string(), entries }
}

#[test]
fn test_java_single_main() {
    let app = file(
        "App.java",
        r#"package com.example;
public class App {
    public static void main(String[] args) {
        System.out.println("hello");
    }
}"#,
    );
    let roots = vec![root(vec![dir("com", vec![dir("example", vec![app])])])];
    let found = find_main_classes(&roots).unwrap();
    assert_eq!(found.len(), 1);
    assert_eq!(found[0].fully_qualified_name, "com.example.App");
    assert_eq!(found[0].source_file, "/tmp/project/com/example/App.java");
}

#[test]
fn test_java_varargs_main() {
    let found = find_main_classes(&[root(vec![file(
        "Main.java",
        "public class Main { public static void main(String... args) {} }",
    )])])
    .unwrap();
    assert_eq!(found.len(), 1);
    assert_eq!(found[0].fully_qualified_name, "Main");
}

#[test]
fn test_java_no_main() {
    let found = find_main_classes(&[root(vec![file(
        "Util.java",
        "public class Util { public void helper() {} }",
    )])])
    .unwrap();
    assert!(found.is_empty());
}

#[test]
fn test_java_multiple_main_classes() {
    let mut found = find_main_classes(&[root(vec![
        file("AppA.java", "public class AppA { public static void main(String[] args) {} }"),
        file("AppB.java", "public class AppB { public static void main(String[] args) {} }"),
    ])])
    .unwrap();
    found.sort_by(|a, b| a.fully_qualified_name.cmp(&b.fully_qualified_name));
    assert_eq!(found.len(), 2);
    assert_eq!(found[0].fully_qualified_name, "AppA");
    assert_eq!(found[1].fully_qualified_name, "AppB");
}

#[test]
fn test_groovy_script_main() {
    let found = find_main_classes(&[root(vec![file(
        "Script.groovy",
        r#"static void main(String[] args) {
    println "hello"
}"#,
    )])])
    .unwrap();
    assert_eq!(found.len(), 1);
    assert_eq!(found[0].fully_qualified_name, "Script");
}

#[test]
fn test_groovy_class_main() {
    let found = find_main_classes(&[root(vec![file(
        "Runner.groovy",
        r#"class Runner {
    static void main(String[] args) {
        println "hello"
    }
}"#,
    )])])
    .unwrap();
    assert_eq!(found.len(), 1);
    assert_eq!(found[0].fully_qualified_name, "Runner");
}

#[test]
fn test_kotlin_top_level_main() {
    let found = find_main_classes(&[root(vec![file(
        "main.kt",
        r#"fun main() {
    println("hello")
}"#,
    )])])
    .unwrap();
    assert_eq!(found.len(), 1);
    assert_eq!(found[0].fully_qualified_name, "main");
}

#[test]
fn test_kotlin_main_with_args() {
    let found = find_main_classes(&[root(vec![file(
        "App.kt",
        r#"fun main(args: Array<String>) {
    println("hello")
}"#,
    )])])
    .unwrap();
    assert_eq!(found.len(), 1);
}

#[test]
fn test_kotlin_no_main() {
    let found = find_main_classes(&[root(vec![file("Util.kt", "fun helper() {}")])]).unwrap();
    assert!(found.is_empty());
}

#[test]
fn test_empty_source_root() {
    let found = find_main_classes(&[root(vec![])]).unwrap();
    assert!(found.is_empty());
}

#[test]
fn test_fqn_nested_package() {
    assert_eq!(
        derive_fqn("/src", "/src/com/example/sub/Main.java"),
        Some("com.example.sub.Main".to_string())
    );
}

#[test]
fn fqn_needs_the_file_below_the_root() {
    assert_eq!(derive_fqn("/src", "/other/Main.java"), None);
    assert_eq!(derive_fqn("/src", "/source/Main.java"), None);
    assert_eq!(derive_fqn("/src/", "/src//a/Main.java"), Some("a.Main".to_string()));
    // Only the last extension goes.
    assert_eq!(derive_fqn("/src", "/src/a/Main.test.java"), Some("a.Main.test".to_string()));
}

#[test]
fn java_main_wants_everything_on_one_line() {
    assert!(has_java_main("  static public void main(final String[] a) {"));
    assert!(!has_java_main("public static void main(\n    String[] args)"));
    assert!(!has_java_main("static void main(String[] args)"));
    assert!(!has_java_main("public static void main()"));
    assert!(!has_java_main(""));
}

#[test]
fn java_main_is_a_method_called_main() {
    assert!(has_java_main("@A(x = \"y\") public static final void  main (java.lang.String... a)"));
    assert!(!has_java_main("public static void mainLoop(String[] a) {}"));
    assert!(!has_java_main("public static void domain(String[] a) {}"));
    assert!(!has_java_main("public static void run(String[] a) { main(a); }"));
    assert!(!has_java_main("public static void main(MyString[] a) {}"));
    // Annotations and comments do not matter, wherever they stand.
    assert!(has_java_main("public @A(\"x\") static void main(String[] a) {}"));
    assert!(has_java_main("public static void main(@A(\"x\") String[] a) {}"));
    assert!(has_java_main("public static void /* the */ /**/main/* entry */ (String[] a) {}"));
    assert!(!has_java_main("public static void /* open main(String[] a) {}"));
    assert!(has_java_main("class A { int n; public static void main(String[] a) {} }"));
}

#[test]
fn groovy_main_may_leave_words_out() {
    assert!(has_groovy_main("def main(String[] args) {}"));
    assert!(has_groovy_main("void main(String... args) {}"));
    assert!(has_groovy_main("static main(String[] args) {}"));
    assert!(!has_groovy_main("main(String[] args)"));
    assert!(!has_groovy_main("static void main()"));
    assert!(!has_groovy_main("static void main (String[] args)"));
    assert!(has_groovy_main("class A { static void main(String[] args) {} }"));
    assert!(!has_groovy_main("static void remain(String[] args) {}"));
    assert!(has_groovy_main("def @A(\"x\") main(@A(\"y\") String[] args) {}"));
    assert!(!has_groovy_main("undefined main(String[] args)"));
}

#[test]
fn kotlin_main_is_not_deep_inside() {
    assert!(has_kotlin_main("object A {\n    fun main() {}\n}"));
    assert!(!has_kotlin_main("object A {\n     fun main() {}\n}"));
    assert!(!has_kotlin_main("private fun main() {}"));
    // A line may end in a carriage return.
    assert!(has_kotlin_main("fun main(\r\n)"));
}

#[test]
fn unreadable_source_file_is_an_error() {
    let gone = Entry::File { name: "A.java".to_string(), bytes: Err("no access".to_string()) };
    let e = find_main_classes(&[root(vec![dir("p", vec![gone])])]).unwrap_err();
    assert_eq!(e.why, "no access");
    let latin = Entry::File { name: "B.kt".to_string(), bytes: Ok(vec![0x66, 0xe9]) };
    let e = find_main_classes(&[root(vec![latin])]).unwrap_err();
    assert_eq!(e.why, "stream did not contain valid UTF-8");
    // A file of another kind is not read.
    let other = Entry::File { name: "notes.txt".to_string(), bytes: Err("no access".to_string()) };
    assert!(find_main_classes(&[root(vec![other])]).unwrap().is_empty());
}

#[test]
fn main_classes_come_in_the_order_of_the_roots() {
    let a = Tree {
        path: "/a".to_string(),
        entries: vec![file("B.java", "public static void main(String[] a)")],
    };
    let b = Tree { path: "/b".to_string(), entries: vec![file("A.kt", "fun main() {}")] };
    let found = find_main_classes(&[a, b]).unwrap();
    assert_eq!(found.len(), 2);
    assert_eq!(found[0].fully_qualified_name, "B");
    assert_eq!(found[1].source_file, "/b/A.kt");
}
