//! Projects that no known build tool manages.

use vstd::prelude::*;
use crate::build_tools::{
    below, paths_below, BuildResult, BuildResultView, BuildToolHandler, Output, ToolError,
    ToolErrorView, ToolRun, ToolRunView,
};
use crate::path::joined;
use crate::text::texts;

verus! {

/// What stands in where no build tool is found. It reports a build that did nothing, and gives
/// the usual directories, as far as they exist.
#[derive(Debug, Clone, Copy, PartialEq, Eq, Structural)]
pub struct NoBuildTool;

impl BuildToolHandler for NoBuildTool {
    open spec fn manages(&self, root: Seq<char>, existing: Seq<String>) -> bool {
        true
    }

    open spec fn configured_by(&self, path: Seq<char>) -> bool {
        false
    }

    open spec fn build_call(&self, root: Seq<char>, existing: Seq<String>) -> Option<ToolRunView> {
        None
    }

    open spec fn built(&self, output: Output) -> BuildResultView {
        BuildResultView::clean()
    }

    open spec fn source_roots_call(
        &self,
        root: Seq<char>,
        existing: Seq<String>,
        temp_dir: Seq<char>,
    ) -> Option<ToolRunView> {
        None
    }

    open spec fn source_roots_in(&self, root: Seq<char>, output: Output) -> Result<
        Seq<Seq<char>>,
        ToolErrorView,
    > {
        Ok(below(root, seq!["src/main/java"@, "src/main/groovy"@, "src/main/kotlin"@]))
    }

    open spec fn classpath_call(
        &self,
        root: Seq<char>,
        existing: Seq<String>,
        temp_dir: Seq<char>,
    ) -> Option<ToolRunView> {
        None
    }

    open spec fn classpath_in(&self, root: Seq<char>, output: Output) -> Result<
        Seq<Seq<char>>,
        ToolErrorView,
    > {
        Ok(
            below(
                root,
                seq![
                    "build/classes/java/main"@,
                    "build/classes/groovy/main"@,
                    "build/classes/kotlin/main"@,
                    "out/production/classes"@,
                ],
            ),
        )
    }

    fn is_project(&self, _root: &str, _existing: &[String]) -> (r: bool) {
        true
    }

    fn is_build_file(&self, _path: &str) -> (r: bool) {
        false
    }

    fn build_run(&self, _root: &str, _existing: &[String]) -> (r: Option<ToolRun>) {
        None
    }

    fn build(&self, _output: &Output) -> (r: BuildResult) {
        let r = BuildResult { success: true, errors: Vec::new() };
        assert(r@ =~= BuildResultView::clean());
        r
    }

    fn source_roots_run(&self, _root: &str, _existing: &[String], _temp_dir: &str) -> (r: Option<
        ToolRun,
    >) {
        None
    }

    fn listed_source_roots(&self, root: &str, output: &Output) -> (r: Result<
        Vec<String>,
        ToolError,
    >) {
        let names: [&str; 3] = ["src/main/java", "src/main/groovy", "src/main/kotlin"];
        let v = paths_below(root, names.as_slice());
        assert(texts(v@) =~= self.source_roots_in(root@, *output)->Ok_0);
        Ok(v)
    }

    fn classpath_run(&self, _root: &str, _existing: &[String], _temp_dir: &str) -> (r: Option<
        ToolRun,
    >) {
        None
    }

    fn listed_classpath(&self, root: &str, output: &Output) -> (r: Result<Vec<String>, ToolError>) {
        let names: [&str; 4] = [
            "build/classes/java/main",
            "build/classes/groovy/main",
            "build/classes/kotlin/main",
            "out/production/classes",
        ];
        let v = paths_below(root, names.as_slice());
        assert(texts(v@) =~= self.classpath_in(root@, *output)->Ok_0);
        Ok(v)
    }
}

/// Without a build tool the sources of all three languages are looked for where they usually
/// stand, and the classes where they are usually compiled to.
pub proof fn law_the_usual_directories_are_looked_at(root: Seq<char>, output: Output)
    ensures
        NoBuildTool.source_roots_in(root, output) == Ok::<Seq<Seq<char>>, ToolErrorView>(
            seq![
                joined(root, "src/main/java"@),
                joined(root, "src/main/groovy"@),
                joined(root, "src/main/kotlin"@),
            ],
        ),
        NoBuildTool.classpath_in(root, output) == Ok::<Seq<Seq<char>>, ToolErrorView>(
            seq![
                joined(root, "build/classes/java/main"@),
                joined(root, "build/classes/groovy/main"@),
                joined(root, "build/classes/kotlin/main"@),
                joined(root, "out/production/classes"@),
            ],
        ),
        NoBuildTool.built(output).success,
        NoBuildTool.built(output).errors.len() == 0,
{
    assert(NoBuildTool.source_roots_in(root, output)->Ok_0 =~= seq![
        joined(root, "src/main/java"@),
        joined(root, "src/main/groovy"@),
        joined(root, "src/main/kotlin"@),
    ]);
    assert(NoBuildTool.classpath_in(root, output)->Ok_0 =~= seq![
        joined(root, "build/classes/java/main"@),
        joined(root, "build/classes/groovy/main"@),
        joined(root, "build/classes/kotlin/main"@),
        joined(root, "out/production/classes"@),
    ]);
}

} // verus!
