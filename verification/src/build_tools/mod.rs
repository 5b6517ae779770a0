//! Build tools: what to run to compile a project, and what its output says.
//!
//! Nothing is run here, and the disk is not looked at. A handler says what is to be run, and
//! reads what came out; which paths exist is handed in as a list.

use vstd::prelude::*;
use crate::build_tools::gradle::GradleHandler;
use crate::build_tools::no_build_tool::NoBuildTool;
use crate::path::{join_path, joined};
use crate::text::{has_text, list_has, texts};

pub mod gradle;
pub mod no_build_tool;

verus! {

/// What compiling a project came to.
#[derive(Debug, PartialEq, Eq)]
pub struct BuildResult {
    pub success: bool,
    /// Lines with compiler errors where it failed, nothing otherwise.
    pub errors: Vec<String>,
}

#[verifier::ext_equal]
pub struct BuildResultView {
    pub success: bool,
    pub errors: Seq<Seq<char>>,
}

impl View for BuildResult {
    type V = BuildResultView;

    open spec fn view(&self) -> BuildResultView {
        BuildResultView { success: self.success, errors: texts(self.errors@) }
    }
}

impl BuildResultView {
    /// A build without errors.
    pub open spec fn clean() -> BuildResultView {
        BuildResultView { success: true, errors: seq![] }
    }
}

/// A program to be run in a directory. Where there is a script, it is to be written to its path
/// before.
#[derive(Debug, PartialEq, Eq)]
pub struct ToolRun {
    pub program: String,
    pub dir: String,
    pub args: Vec<String>,
    pub script: Option<Script>,
}

#[derive(Debug, PartialEq, Eq)]
pub struct Script {
    pub path: String,
    pub text: String,
}

#[verifier::ext_equal]
pub struct ToolRunView {
    pub program: Seq<char>,
    pub dir: Seq<char>,
    pub args: Seq<Seq<char>>,
    pub script: Option<ScriptView>,
}

pub struct ScriptView {
    pub path: Seq<char>,
    pub text: Seq<char>,
}

impl View for ToolRun {
    type V = ToolRunView;

    open spec fn view(&self) -> ToolRunView {
        ToolRunView {
            program: self.program@,
            dir: self.dir@,
            args: texts(self.args@),
            script: match self.script {
                None => None,
                Some(s) => Some(ScriptView { path: s.path@, text: s.text@ }),
            },
        }
    }
}

/// Whether the optional run is the one that `want` says.
pub open spec fn run_is(r: Option<ToolRun>, want: Option<ToolRunView>) -> bool {
    match want {
        None => r is None,
        Some(w) => r matches Some(x) && x@ == w,
    }
}

/// What a program that was run gave back.
#[derive(Debug, PartialEq, Eq)]
pub struct Output {
    pub success: bool,
    pub stdout: Vec<u8>,
    pub stderr: Vec<u8>,
}

impl Output {
    /// What stands for a run where there is nothing to run.
    pub fn nothing() -> (o: Output)
        ensures
            o.success,
            o.stdout@ == Seq::<u8>::empty(),
            o.stderr@ == Seq::<u8>::empty(),
    {
        Output { success: true, stdout: Vec::new(), stderr: Vec::new() }
    }
}

/// Why a build tool could not be asked.
#[derive(Debug, PartialEq, Eq)]
pub enum ToolError {
    /// The tool failed, and said this.
    Failed(String),
    /// What the tool printed is not UTF-8, and why not.
    NotUtf8(String),
}

pub enum ToolErrorView {
    Failed(Seq<char>),
    NotUtf8(Seq<char>),
}

impl View for ToolError {
    type V = ToolErrorView;

    open spec fn view(&self) -> ToolErrorView {
        match *self {
            ToolError::Failed(s) => ToolErrorView::Failed(s@),
            ToolError::NotUtf8(s) => ToolErrorView::NotUtf8(s@),
        }
    }
}

impl ToolErrorView {
    pub open spec fn text(self) -> Seq<char> {
        match self {
            ToolErrorView::Failed(s) => s,
            ToolErrorView::NotUtf8(s) => s,
        }
    }
}

impl ToolError {
    pub fn message(&self) -> (s: String)
        ensures
            s@ == self@.text(),
    {
        match self {
            ToolError::Failed(s) => s.clone(),
            ToolError::NotUtf8(s) => s.clone(),
        }
    }
}

/// Whether a list of paths, or the error in its place, is what `want` says.
pub open spec fn paths_are(
    r: Result<Vec<String>, ToolError>,
    want: Result<Seq<Seq<char>>, ToolErrorView>,
) -> bool {
    match want {
        Ok(paths) => r matches Ok(v) && texts(v@) == paths,
        Err(e) => r matches Err(x) && x@ == e,
    }
}

/// The paths that exist, in their order.
pub open spec fn that_exist(paths: Seq<Seq<char>>, existing: Seq<String>) -> Seq<Seq<char>>
    decreases paths.len(),
{
    if paths.len() == 0 {
        seq![]
    } else if has_text(existing, paths.last()) {
        that_exist(paths.drop_last(), existing).push(paths.last())
    } else {
        that_exist(paths.drop_last(), existing)
    }
}

/// Among the paths, where they could be listed, those that exist.
pub open spec fn existing_of(
    listed: Result<Seq<Seq<char>>, ToolErrorView>,
    existing: Seq<String>,
) -> Result<Seq<Seq<char>>, ToolErrorView> {
    match listed {
        Ok(paths) => Ok(that_exist(paths, existing)),
        Err(e) => Err(e),
    }
}

/// A path that is kept exists and was listed.
pub proof fn law_kept_paths_exist(paths: Seq<Seq<char>>, existing: Seq<String>, p: Seq<char>)
    ensures
        that_exist(paths, existing).contains(p) <==> paths.contains(p) && has_text(existing, p),
    decreases paths.len(),
{
    if paths.len() > 0 {
        let less = paths.drop_last();
        law_kept_paths_exist(less, existing, p);
        let kept = that_exist(paths, existing);
        if paths.contains(p) && has_text(existing, p) {
            let i = choose|i: int| 0 <= i < paths.len() && paths[i] == p;
            if i == paths.len() - 1 {
                assert(kept.last() == p);
                assert(kept[kept.len() - 1] == p);
            } else {
                assert(less[i] == p);
                let k = choose|k: int|
                    0 <= k < that_exist(less, existing).len() && that_exist(less, existing)[k] == p;
                assert(kept[k] == p);
            }
        }
        if kept.contains(p) {
            let k = choose|k: int| 0 <= k < kept.len() && kept[k] == p;
            if k < that_exist(less, existing).len() {
                assert(that_exist(less, existing)[k] == p);
                let i = choose|i: int| 0 <= i < less.len() && less[i] == p;
                assert(paths[i] == p);
            } else {
                assert(paths[paths.len() - 1] == p);
            }
        }
    }
}

pub fn keep_existing(paths: Vec<String>, existing: &[String]) -> (v: Vec<String>)
    ensures
        texts(v@) == that_exist(texts(paths@), existing@),
{
    let mut v: Vec<String> = Vec::new();
    let ghost all = texts(paths@);
    let mut i: usize = 0;
    assert(all.take(0) =~= seq![]);
    assert(texts(v@) =~= seq![]);
    while i < paths.len()
        invariant
            i <= paths@.len(),
            all == texts(paths@),
            texts(v@) == that_exist(all.take(i as int), existing@),
        decreases paths@.len() - i,
    {
        assert(all.take(i + 1).drop_last() =~= all.take(i as int));
        assert(all.take(i + 1).last() == paths@[i as int]@);
        if list_has(existing, paths[i].as_str()) {
            let ghost before = texts(v@);
            v.push(paths[i].clone());
            assert(texts(v@) =~= before.push(paths@[i as int]@));
        }
        i += 1;
    }
    assert(all.take(i as int) =~= all);
    v
}

/// The paths `root` and each of `names` make.
pub open spec fn below(root: Seq<char>, names: Seq<Seq<char>>) -> Seq<Seq<char>> {
    names.map_values(|n: Seq<char>| joined(root, n))
}

pub(crate) fn paths_below(root: &str, names: &[&str]) -> (v: Vec<String>)
    ensures
        texts(v@) == below(root@, names@.map_values(|n: &str| n@)),
{
    let mut v: Vec<String> = Vec::new();
    let ghost all = below(root@, names@.map_values(|n: &str| n@));
    let mut i: usize = 0;
    assert(texts(v@) =~= all.take(0));
    while i < names.len()
        invariant
            i <= names@.len() == all.len(),
            all == below(root@, names@.map_values(|n: &str| n@)),
            texts(v@) == all.take(i as int),
        decreases names@.len() - i,
    {
        let ghost before = texts(v@);
        let p = join_path(root, names[i]);
        v.push(p);
        assert(texts(v@) =~= before.push(p@));
        i += 1;
        assert(texts(v@) =~= all.take(i as int));
    }
    assert(all.take(i as int) =~= all);
    v
}

/// A build tool.
pub trait BuildToolHandler {
    spec fn manages(&self, root: Seq<char>, existing: Seq<String>) -> bool;

    spec fn configured_by(&self, path: Seq<char>) -> bool;

    spec fn build_call(&self, root: Seq<char>, existing: Seq<String>) -> Option<ToolRunView>;

    spec fn built(&self, output: Output) -> BuildResultView;

    spec fn source_roots_call(
        &self,
        root: Seq<char>,
        existing: Seq<String>,
        temp_dir: Seq<char>,
    ) -> Option<ToolRunView>;

    spec fn source_roots_in(&self, root: Seq<char>, output: Output) -> Result<
        Seq<Seq<char>>,
        ToolErrorView,
    >;

    spec fn classpath_call(
        &self,
        root: Seq<char>,
        existing: Seq<String>,
        temp_dir: Seq<char>,
    ) -> Option<ToolRunView>;

    spec fn classpath_in(&self, root: Seq<char>, output: Output) -> Result<
        Seq<Seq<char>>,
        ToolErrorView,
    >;

    /// Whether `root` is a project managed by this build tool.
    fn is_project(&self, root: &str, existing: &[String]) -> (r: bool)
        ensures
            r == self.manages(root@, existing@),
    ;

    /// Whether `path` is a file that configures this build tool.
    fn is_build_file(&self, path: &str) -> (r: bool)
        ensures
            r == self.configured_by(path@),
    ;

    /// What to run to compile the project; nothing where there is nothing to do.
    fn build_run(&self, root: &str, existing: &[String]) -> (r: Option<ToolRun>)
        ensures
            run_is(r, self.build_call(root@, existing@)),
    ;

    /// What compiling the project came to, by what the run gave back.
    fn build(&self, output: &Output) -> (r: BuildResult)
        ensures
            r@ == self.built(*output),
    ;

    /// What to run to learn the source roots.
    fn source_roots_run(&self, root: &str, existing: &[String], temp_dir: &str) -> (r: Option<
        ToolRun,
    >)
        ensures
            run_is(r, self.source_roots_call(root@, existing@, temp_dir@)),
    ;

    /// The directories that may be source roots, of all subprojects.
    fn listed_source_roots(&self, root: &str, output: &Output) -> (r: Result<
        Vec<String>,
        ToolError,
    >)
        ensures
            paths_are(r, self.source_roots_in(root@, *output)),
    ;

    /// What to run to learn the class path.
    fn classpath_run(&self, root: &str, existing: &[String], temp_dir: &str) -> (r: Option<ToolRun>)
        ensures
            run_is(r, self.classpath_call(root@, existing@, temp_dir@)),
    ;

    /// The entries that the class path may have.
    fn listed_classpath(&self, root: &str, output: &Output) -> (r: Result<Vec<String>, ToolError>)
        ensures
            paths_are(r, self.classpath_in(root@, *output)),
    ;

    /// The source roots that exist.
    fn get_source_roots(&self, root: &str, output: &Output, existing: &[String]) -> (r: Result<
        Vec<String>,
        ToolError,
    >)
        ensures
            paths_are(r, existing_of(self.source_roots_in(root@, *output), existing@)),
    {
        match self.listed_source_roots(root, output) {
            Ok(paths) => Ok(keep_existing(paths, existing)),
            Err(e) => Err(e),
        }
    }

    /// The entries of the class path that exist, once the project is compiled.
    fn get_classpath(&self, root: &str, output: &Output, existing: &[String]) -> (r: Result<
        Vec<String>,
        ToolError,
    >)
        ensures
            paths_are(r, existing_of(self.classpath_in(root@, *output), existing@)),
    {
        match self.listed_classpath(root, output) {
            Ok(paths) => Ok(keep_existing(paths, existing)),
            Err(e) => Err(e),
        }
    }
}

/// One of the build tools.
pub enum BuildTool {
    Gradle(GradleHandler),
    NoTool(NoBuildTool),
}

/// The paths whose existence tells the build tool of a project, and how to run it.
pub fn tool_paths(root: &str) -> (v: Vec<String>)
    ensures
        texts(v@) == below(
            root@,
            seq![
                "build.gradle"@,
                "build.gradle.kts"@,
                "settings.gradle"@,
                "settings.gradle.kts"@,
                "gradlew"@,
            ],
        ),
{
    let names: [&str; 5] = [
        "build.gradle",
        "build.gradle.kts",
        "settings.gradle",
        "settings.gradle.kts",
        "gradlew",
    ];
    let v = paths_below(root, names.as_slice());
    assert(texts(v@) =~= below(
        root@,
        seq![
            "build.gradle"@,
            "build.gradle.kts"@,
            "settings.gradle"@,
            "settings.gradle.kts"@,
            "gradlew"@,
        ],
    ));
    v
}

/// The build tool of the project at `root`: the first that manages it, or none.
pub fn get_build_tool(root: &str, existing: &[String]) -> (t: BuildTool)
    ensures
        t == if GradleHandler.manages(root@, existing@) {
            BuildTool::Gradle(GradleHandler)
        } else {
            BuildTool::NoTool(NoBuildTool)
        },
{
    let gradle = GradleHandler;
    if gradle.is_project(root, existing) {
        BuildTool::Gradle(gradle)
    } else {
        BuildTool::NoTool(NoBuildTool)
    }
}

impl BuildToolHandler for BuildTool {
    open spec fn manages(&self, root: Seq<char>, existing: Seq<String>) -> bool {
        match *self {
            BuildTool::Gradle(t) => t.manages(root, existing),
            BuildTool::NoTool(t) => t.manages(root, existing),
        }
    }

    open spec fn configured_by(&self, path: Seq<char>) -> bool {
        match *self {
            BuildTool::Gradle(t) => t.configured_by(path),
            BuildTool::NoTool(t) => t.configured_by(path),
        }
    }

    open spec fn build_call(&self, root: Seq<char>, existing: Seq<String>) -> Option<ToolRunView> {
        match *self {
            BuildTool::Gradle(t) => t.build_call(root, existing),
            BuildTool::NoTool(t) => t.build_call(root, existing),
        }
    }

    open spec fn built(&self, output: Output) -> BuildResultView {
        match *self {
            BuildTool::Gradle(t) => t.built(output),
            BuildTool::NoTool(t) => t.built(output),
        }
    }

    open spec fn source_roots_call(
        &self,
        root: Seq<char>,
        existing: Seq<String>,
        temp_dir: Seq<char>,
    ) -> Option<ToolRunView> {
        match *self {
            BuildTool::Gradle(t) => t.source_roots_call(root, existing, temp_dir),
            BuildTool::NoTool(t) => t.source_roots_call(root, existing, temp_dir),
        }
    }

    open spec fn source_roots_in(&self, root: Seq<char>, output: Output) -> Result<
        Seq<Seq<char>>,
        ToolErrorView,
    > {
        match *self {
            BuildTool::Gradle(t) => t.source_roots_in(root, output),
            BuildTool::NoTool(t) => t.source_roots_in(root, output),
        }
    }

    open spec fn classpath_call(
        &self,
        root: Seq<char>,
        existing: Seq<String>,
        temp_dir: Seq<char>,
    ) -> Option<ToolRunView> {
        match *self {
            BuildTool::Gradle(t) => t.classpath_call(root, existing, temp_dir),
            BuildTool::NoTool(t) => t.classpath_call(root, existing, temp_dir),
        }
    }

    open spec fn classpath_in(&self, root: Seq<char>, output: Output) -> Result<
        Seq<Seq<char>>,
        ToolErrorView,
    > {
        match *self {
            BuildTool::Gradle(t) => t.classpath_in(root, output),
            BuildTool::NoTool(t) => t.classpath_in(root, output),
        }
    }

    fn is_project(&self, root: &str, existing: &[String]) -> (r: bool) {
        match self {
            BuildTool::Gradle(t) => t.is_project(root, existing),
            BuildTool::NoTool(t) => t.is_project(root, existing),
        }
    }

    fn is_build_file(&self, path: &str) -> (r: bool) {
        match self {
            BuildTool::Gradle(t) => t.is_build_file(path),
            BuildTool::NoTool(t) => t.is_build_file(path),
        }
    }

    fn build_run(&self, root: &str, existing: &[String]) -> (r: Option<ToolRun>) {
        match self {
            BuildTool::Gradle(t) => t.build_run(root, existing),
            BuildTool::NoTool(t) => t.build_run(root, existing),
        }
    }

    fn build(&self, output: &Output) -> (r: BuildResult) {
        match self {
            BuildTool::Gradle(t) => t.build(output),
            BuildTool::NoTool(t) => t.build(output),
        }
    }

    fn source_roots_run(&self, root: &str, existing: &[String], temp_dir: &str) -> (r: Option<
        ToolRun,
    >) {
        match self {
            BuildTool::Gradle(t) => t.source_roots_run(root, existing, temp_dir),
            BuildTool::NoTool(t) => t.source_roots_run(root, existing, temp_dir),
        }
    }

    fn listed_source_roots(&self, root: &str, output: &Output) -> (r: Result<
        Vec<String>,
        ToolError,
    >) {
        match self {
            BuildTool::Gradle(t) => t.listed_source_roots(root, output),
            BuildTool::NoTool(t) => t.listed_source_roots(root, output),
        }
    }

    fn classpath_run(&self, root: &str, existing: &[String], temp_dir: &str) -> (r: Option<ToolRun>) {
        match self {
            BuildTool::Gradle(t) => t.classpath_run(root, existing, temp_dir),
            BuildTool::NoTool(t) => t.classpath_run(root, existing, temp_dir),
        }
    }

    fn listed_classpath(&self, root: &str, output: &Output) -> (r: Result<Vec<String>, ToolError>) {
        match self {
            BuildTool::Gradle(t) => t.listed_classpath(root, output),
            BuildTool::NoTool(t) => t.listed_classpath(root, output),
        }
    }
}

/// Of the paths that are listed, all that exist are kept, in their order, and no others.
pub proof fn law_all_existing_paths_are_kept(paths: Seq<Seq<char>>, existing: Seq<String>)
    ensures
        that_exist(paths, existing) == paths.filter(
            |p: Seq<char>| exists|i: int| 0 <= i < existing.len() && (#[trigger] existing[i])@ == p,
        ),
    decreases paths.len(),
{
    reveal(Seq::filter);
    let there = |p: Seq<char>|
        exists|i: int| 0 <= i < existing.len() && (#[trigger] existing[i])@ == p;
    if paths.len() > 0 {
        law_all_existing_paths_are_kept(paths.drop_last(), existing);
        assert(has_text(existing, paths.last()) == there(paths.last()));
    }
    assert(that_exist(paths, existing) =~= paths.filter(there));
}

/// A tool that could not be asked leaves no paths; else those that exist are left.
pub proof fn law_tools_that_fail_leave_no_paths(
    paths: Seq<Seq<char>>,
    e: ToolErrorView,
    existing: Seq<String>,
    root: Seq<char>,
    i: int,
)
    ensures
        existing_of(Err(e), existing) == Err::<Seq<Seq<char>>, ToolErrorView>(e),
        existing_of(Ok(paths), existing) == Ok::<Seq<Seq<char>>, ToolErrorView>(
            that_exist(paths, existing),
        ),
        below(root, paths).len() == paths.len(),
        0 <= i < paths.len() ==> below(root, paths)[i] == joined(root, paths[i]),
        e matches ToolErrorView::Failed(s) ==> e.text() == s,
        e matches ToolErrorView::NotUtf8(s) ==> e.text() == s,
{
}

/// The tool of a project does what the one that manages it does: Gradle's where there is a build
/// file or a settings file of Gradle's at the root, else that of a project without one.
pub proof fn law_a_tool_does_what_it_stands_for(
    root: Seq<char>,
    existing: Seq<String>,
    temp_dir: Seq<char>,
    output: Output,
    path: Seq<char>,
)
    ensures
        ({
            let g = BuildTool::Gradle(GradleHandler);
            let n = BuildTool::NoTool(NoBuildTool);
            &&& g.build_call(root, existing) == GradleHandler.build_call(root, existing)
            &&& g.built(output) == GradleHandler.built(output)
            &&& g.source_roots_call(root, existing, temp_dir) == GradleHandler.source_roots_call(
                root,
                existing,
                temp_dir,
            )
            &&& g.source_roots_in(root, output) == GradleHandler.source_roots_in(root, output)
            &&& g.classpath_call(root, existing, temp_dir) == GradleHandler.classpath_call(
                root,
                existing,
                temp_dir,
            )
            &&& g.classpath_in(root, output) == GradleHandler.classpath_in(root, output)
            &&& g.configured_by(path) == GradleHandler.configured_by(path)
            &&& g.manages(root, existing) == GradleHandler.manages(root, existing)
            &&& n.build_call(root, existing) is None
            &&& n.built(output) == (BuildResultView { success: true, errors: seq![] })
            &&& n.source_roots_call(root, existing, temp_dir) is None
            &&& n.classpath_call(root, existing, temp_dir) is None
            &&& n.source_roots_in(root, output) == NoBuildTool.source_roots_in(root, output)
            &&& n.classpath_in(root, output) == NoBuildTool.classpath_in(root, output)
            &&& !n.configured_by(path)
            &&& n.manages(root, existing)
        }),
{
}

} // verus!
