//! Build tools: which one, what to run, what came of it.

use std::path::Path;

use dapintar::build_tools::gradle::{GradleHandler, CLASSPATH_SCRIPT, SOURCE_ROOTS_SCRIPT};
use dapintar::build_tools::no_build_tool::NoBuildTool;
use dapintar::build_tools::{
    get_build_tool, keep_existing, tool_paths, BuildTool, BuildToolHandler, Output, ToolError,
};

fn texts(list: &[&str]) -> Vec<String> {
    list.iter().map(|s| s.to_string()).collect()
}

fn output(success: bool, stdout: &str, stderr: &str) -> Output {
    Output { success, stdout: stdout.as_bytes().to_vec(), stderr: stderr.as_bytes().to_vec() }
}

#[test]
fn test_is_project_build_gradle() {
    assert!(GradleHandler.is_project("/tmp/p", &texts(&["/tmp/p/build.gradle"])));
}

#[test]
fn test_is_project_settings_gradle_kts() {
    assert!(GradleHandler.is_project("/tmp/p", &texts(&["/tmp/p/settings.gradle.kts"])));
}

#[test]
fn test_is_not_project_empty_dir() {
    assert!(!GradleHandler.is_project("/tmp/p", &[]));
}

#[test]
fn test_is_build_file() {
    assert!(GradleHandler.is_build_file("build.gradle"));
    assert!(GradleHandler.is_build_file("build.gradle.kts"));
    assert!(GradleHandler.is_build_file("settings.gradle"));
    assert!(!GradleHandler.is_build_file("Main.java"));
    assert!(!GradleHandler.is_build_file("pom.xml"));
}

#[test]
fn test_build_success() {
    let result = GradleHandler.build(&output(
        true,
        "> Task :compileJava\n> Task :classes\n\nBUILD SUCCESSFUL in 1s\n",
        "",
    ));
    assert!(result.success, "expected successful build; errors: {:?}", result.errors);
    assert!(result.errors.is_empty());
}

#[test]
fn test_build_failure_returns_errors() {
    let result = GradleHandler.build(&output(
        false,
        "> Task :compileJava FAILED\n",
        "/p/src/main/java/Main.java:3: error: ';' expected\n        int x = 1\n                 ^\n1 error\n",
    ));
    assert!(!result.success, "expected build to fail");
    assert!(!result.errors.is_empty(), "expected at least one error line");
    assert_eq!(result.errors, texts(&["/p/src/main/java/Main.java:3: error: ';' expected"]));
}

#[test]
fn test_get_source_roots_returns_java_root() {
    let listed = output(true, "/p/src/main/resources\n/p/src/main/java\n", "");
    let roots = GradleHandler
        .get_source_roots("/p", &listed, &texts(&["/p/src/main/java"]))
        .expect("get_source_roots() should not error");
    assert!(!roots.is_empty(), "expected at least one source root");
    assert!(
        roots.iter().any(|r| Path::new(r).ends_with("src/main/java")),
        "expected src/main/java in roots; got {roots:?}"
    );
    assert_eq!(roots, texts(&["/p/src/main/java"]));
}

#[test]
fn test_get_source_roots_multi_module_returns_all_subprojects() {
    let listed = output(true, "/p/app/src/main/java\n/p/lib/src/main/java\n", "");
    let roots = GradleHandler
        .get_source_roots("/p", &listed, &texts(&["/p/lib/src/main/java", "/p/app/src/main/java"]))
        .expect("get_source_roots() should not error");
    assert!(
        roots.iter().any(|r| Path::new(r).ends_with("app/src/main/java")),
        "expected app source root; got {roots:?}"
    );
    assert!(
        roots.iter().any(|r| Path::new(r).ends_with("lib/src/main/java")),
        "expected lib source root; got {roots:?}"
    );
}

#[test]
fn test_build_multi_module_compiles_all_subprojects() {
    let result = GradleHandler.build(&output(
        true,
        "> Task :lib:compileJava\n> Task :lib:classes\n> Task :app:compileJava\n> Task :app:classes\n",
        "",
    ));
    assert!(result.success, "expected successful build; errors: {:?}", result.errors);

    let app_classes = "/p/app/build/classes/java/main".to_string();
    let lib_classes = "/p/lib/build/classes/java/main".to_string();
    let listed = output(
        true,
        "/p/app/build/classes/java/main\n/p/app/build/resources/main\n/p/lib/build/classes/java/main\n",
        "",
    );
    let existing = vec![app_classes.clone(), lib_classes.clone()];
    let classpath = GradleHandler.get_classpath("/p", &listed, &existing).unwrap();
    assert!(classpath.contains(&app_classes), "app classes dir missing: {app_classes:?}");
    assert!(classpath.contains(&lib_classes), "lib classes dir missing: {lib_classes:?}");
    assert_eq!(classpath.len(), 2);
}

#[test]
fn build_file_is_told_by_its_name_alone() {
    assert!(GradleHandler.is_build_file("/a/b/settings.gradle.kts"));
    assert!(GradleHandler.is_build_file("a/build.gradle/"));
    assert!(!GradleHandler.is_build_file("build.gradle/x"));
    assert!(!GradleHandler.is_build_file(".."));
    assert!(!NoBuildTool.is_build_file("build.gradle"));
}

#[test]
fn wrapper_is_run_where_there_is_one() {
    assert_eq!(GradleHandler::gradle_cmd("/p", &[]), "gradle");
    assert_eq!(GradleHandler::gradle_cmd("/p", &texts(&["/p/gradlew"])), "/p/gradlew");
    let run = GradleHandler.build_run("/p", &texts(&["/p/gradlew"])).unwrap();
    assert_eq!(run.program, "/p/gradlew");
    assert_eq!(run.dir, "/p");
    assert_eq!(run.args, texts(&["classes", "--console=plain"]));
    assert!(run.script.is_none());
}

#[test]
fn source_roots_and_classpath_are_asked_with_a_script() {
    let run = GradleHandler.source_roots_run("/p", &[], "/tmp").unwrap();
    assert_eq!(run.program, "gradle");
    assert_eq!(
        run.args,
        texts(&["-I", "/tmp/dap-gradle-source-roots.gradle", "dapSourceRoots", "-q"])
    );
    let script = run.script.unwrap();
    assert_eq!(script.path, "/tmp/dap-gradle-source-roots.gradle");
    assert_eq!(script.text, SOURCE_ROOTS_SCRIPT);
    assert!(SOURCE_ROOTS_SCRIPT.contains("rootProject.task('dapSourceRoots')"));

    let run = GradleHandler.classpath_run("/p", &[], "/tmp/").unwrap();
    assert_eq!(run.args, texts(&["-I", "/tmp/dap-gradle-classpath.gradle", "dapClasspath", "-q"]));
    let script = run.script.unwrap();
    assert_eq!(script.path, "/tmp/dap-gradle-classpath.gradle");
    assert_eq!(script.text, CLASSPATH_SCRIPT);
    assert!(CLASSPATH_SCRIPT.contains("proj.sourceSets.main.runtimeClasspath"));
}

#[test]
fn errors_are_taken_from_both_streams() {
    let result = GradleHandler.build(&output(
        false,
        "A.java:1: error: one\nnothing\n   e: two  \n",
        "startup failed: error: three\r\n w: no\n",
    ));
    assert_eq!(
        result.errors,
        texts(&["A.java:1: error: one", "   e: two  ", "startup failed: error: three"])
    );
}

#[test]
fn without_error_lines_the_whole_output_is_shown() {
    let result = GradleHandler.build(&output(false, "FAILURE\n\n  \n* Try again\n", "quiet\n"));
    assert!(!result.success);
    assert_eq!(result.errors, texts(&["FAILURE", "* Try again"]));
    // Where the output is blank, what was printed beside it is shown.
    let stderr = "\nFAILURE: Build failed with an exception.\n * What went wrong\n";
    let result = GradleHandler.build(&output(false, " \n\n", stderr));
    assert_eq!(
        result.errors,
        texts(&["FAILURE: Build failed with an exception.", " * What went wrong"])
    );
    let result = GradleHandler.build(&output(false, "", "\n"));
    assert_eq!(result.errors, Vec::<String>::new());
}

#[test]
fn bytes_that_are_no_text_are_replaced_in_errors() {
    let o = Output { success: false, stdout: vec![0xff, 0x41, 0x0a], stderr: vec![] };
    assert_eq!(GradleHandler.build(&o).errors, vec!["\u{fffd}A".to_string()]);
}

#[test]
fn failed_questions_are_errors() {
    let o = output(false, "", "no such task");
    assert_eq!(
        GradleHandler.get_source_roots("/p", &o, &[]),
        Err(ToolError::Failed("gradle failed: no such task".to_string()))
    );
    assert_eq!(
        GradleHandler.get_classpath("/p", &o, &[]),
        Err(ToolError::Failed("gradle classpath query failed: no such task".to_string()))
    );
    assert_eq!(
        GradleHandler.get_classpath("/p", &o, &[]).unwrap_err().message(),
        "gradle classpath query failed: no such task"
    );
    let o = Output { success: true, stdout: vec![0xc3, 0x28], stderr: vec![] };
    let e = GradleHandler.get_classpath("/p", &o, &[]).unwrap_err();
    assert!(matches!(e, ToolError::NotUtf8(_)));
    assert_eq!(e.message(), "invalid utf-8 sequence of 1 bytes from index 0");
}

#[test]
fn listed_paths_are_trimmed() {
    let o = output(true, "  /p/a  \r\n/p/b", "");
    assert_eq!(
        GradleHandler.listed_source_roots("/p", &o).unwrap(),
        texts(&["/p/a", "/p/b"])
    );
}

#[test]
fn tool_is_chosen_by_what_exists() {
    let paths = tool_paths("/p");
    assert_eq!(
        paths,
        texts(&[
            "/p/build.gradle",
            "/p/build.gradle.kts",
            "/p/settings.gradle",
            "/p/settings.gradle.kts",
            "/p/gradlew"
        ])
    );
    assert!(matches!(
        get_build_tool("/p", &texts(&["/p/build.gradle.kts"])),
        BuildTool::Gradle(_)
    ));
    // The wrapper alone makes no project.
    assert!(matches!(get_build_tool("/p", &texts(&["/p/gradlew"])), BuildTool::NoTool(_)));
}

#[test]
fn no_build_tool_knows_the_usual_directories() {
    assert!(NoBuildTool.is_project("/p", &[]));
    assert!(NoBuildTool.build_run("/p", &[]).is_none());
    assert!(NoBuildTool.build(&Output::nothing()).success);
    let existing = texts(&["/p/src/main/kotlin", "/p/src/main/java", "/p/out/production/classes"]);
    assert_eq!(
        NoBuildTool.get_source_roots("/p", &Output::nothing(), &existing).unwrap(),
        texts(&["/p/src/main/java", "/p/src/main/kotlin"])
    );
    assert_eq!(
        NoBuildTool.get_classpath("/p", &Output::nothing(), &existing).unwrap(),
        texts(&["/p/out/production/classes"])
    );
    assert_eq!(
        NoBuildTool.listed_classpath("/p", &Output::nothing()).unwrap(),
        texts(&[
            "/p/build/classes/java/main",
            "/p/build/classes/groovy/main",
            "/p/build/classes/kotlin/main",
            "/p/out/production/classes"
        ])
    );
}

#[test]
fn kept_paths_exist_and_stay_in_order() {
    let kept = keep_existing(texts(&["/b", "/a", "/c", "/b"]), &texts(&["/a", "/b"]));
    assert_eq!(kept, texts(&["/b", "/a", "/b"]));
}
