//! Projects that Gradle builds.

use vstd::prelude::*;
use vstd::utf8::{decode_utf8, valid_utf8};
use crate::build_tools::{
    BuildResult, BuildResultView, BuildToolHandler, Output, Script, ScriptView, ToolError,
    ToolErrorView, ToolRun, ToolRunView,
};
use crate::path::{file_name, join_path, joined, law_file_is_the_last_name, path_file_name};
use crate::text::{
    append, chars_of, contains, has_part, has_prefix, has_text, lines, list_has, lossy_text, owned,
    rows, same_text, split_lines, starts_with, string_of, text_from_utf8, texts, trim, trimmed,
    utf8_fault, utf8_lossy,
};

verus! {

/// Adds a task to the root project that prints the runtime class path of all subprojects.
pub const CLASSPATH_SCRIPT: &'static str = "
gradle.projectsEvaluated {
    rootProject.task('dapClasspath') {
        doLast {
            def seen = [] as Set
            rootProject.allprojects.each { proj ->
                if (['java', 'groovy', 'kotlin', 'org.jetbrains.kotlin.jvm']
                        .any { proj.plugins.hasPlugin(it) }) {
                    try {
                        proj.sourceSets.main.runtimeClasspath.each {
                            if (seen.add(it.absolutePath)) println it.absolutePath
                        }
                    } catch (ignored) {}
                }
            }
        }
    }
}
";

/// Adds a task to the root project that prints the source directories of all subprojects.
pub const SOURCE_ROOTS_SCRIPT: &'static str = "
gradle.projectsEvaluated {
    rootProject.task('dapSourceRoots') {
        doLast {
            rootProject.allprojects.each { proj ->
                if (['java', 'groovy', 'kotlin', 'org.jetbrains.kotlin.jvm']
                        .any { proj.plugins.hasPlugin(it) }) {
                    proj.sourceSets.main.allSource.srcDirs
                        .findAll { it.exists() }
                        .each { println it.absolutePath }
                }
            }
        }
    }
}
";

/// A project built by Gradle.
#[derive(Debug, Clone, Copy, PartialEq, Eq, Structural)]
pub struct GradleHandler;

/// The project's own Gradle where it has one, else the one on the path.
pub open spec fn gradle_program(root: Seq<char>, existing: Seq<String>) -> Seq<char> {
    if has_text(existing, joined(root, "gradlew"@)) {
        joined(root, "gradlew"@)
    } else {
        "gradle"@
    }
}

/// Whether a line of output looks like a compiler error of Java, Kotlin or Groovy.
pub open spec fn is_error_line(line: Seq<char>) -> bool {
    let t = trim(line);
    contains(t, ": error:"@) || starts_with(t, "e: "@) || contains(t, "error: "@)
}

pub open spec fn error_lines(all: Seq<Seq<char>>) -> Seq<Seq<char>>
    decreases all.len(),
{
    if all.len() == 0 {
        seq![]
    } else if is_error_line(all.last()) {
        error_lines(all.drop_last()).push(all.last())
    } else {
        error_lines(all.drop_last())
    }
}

pub open spec fn lines_with_text(all: Seq<Seq<char>>) -> Seq<Seq<char>>
    decreases all.len(),
{
    if all.len() == 0 {
        seq![]
    } else if trim(all.last()).len() > 0 {
        lines_with_text(all.drop_last()).push(all.last())
    } else {
        lines_with_text(all.drop_last())
    }
}

/// The compiler errors in both streams; where there are none, the whole output, and where that
/// is blank too, all that was printed beside it, so that there is always something to go by.
pub open spec fn errors_in(stdout: Seq<char>, stderr: Seq<char>) -> Seq<Seq<char>> {
    let found = error_lines(lines(stdout) + lines(stderr));
    if found.len() > 0 {
        found
    } else if lines_with_text(lines(stdout)).len() > 0 {
        lines_with_text(lines(stdout))
    } else {
        lines_with_text(lines(stderr))
    }
}

/// A failed build that printed a line with anything on it, in either stream, shows something.
pub proof fn law_failed_build_shows_something(stdout: Seq<char>, stderr: Seq<char>, i: int)
    requires
        0 <= i < (lines(stdout) + lines(stderr)).len(),
        trim((lines(stdout) + lines(stderr))[i]).len() > 0,
    ensures
        errors_in(stdout, stderr).len() > 0,
{
    if i < lines(stdout).len() {
        lemma_nonblank_line_stays(lines(stdout), i);
    } else {
        lemma_nonblank_line_stays(lines(stderr), i - lines(stdout).len());
    }
}

proof fn lemma_nonblank_line_stays(all: Seq<Seq<char>>, i: int)
    requires
        0 <= i < all.len(),
        trim(all[i]).len() > 0,
    ensures
        lines_with_text(all).len() > 0,
    decreases all.len(),
{
    if i < all.len() - 1 {
        assert(all.drop_last()[i] == all[i]);
        lemma_nonblank_line_stays(all.drop_last(), i);
    }
}

/// A run of Gradle for a task that a script adds.
pub open spec fn script_call(
    root: Seq<char>,
    existing: Seq<String>,
    path: Seq<char>,
    text: Seq<char>,
    task: Seq<char>,
) -> ToolRunView {
    ToolRunView {
        program: gradle_program(root, existing),
        dir: root,
        args: seq!["-I"@, path, task, "-q"@],
        script: Some(ScriptView { path, text }),
    }
}

/// The lines of a text without the white space around them.
pub open spec fn trimmed_lines(text: Seq<char>) -> Seq<Seq<char>> {
    lines(text).map_values(|l: Seq<char>| trim(l))
}

/// The paths that a task printed, one a line; an error that starts with `failed` where it
/// failed.
pub open spec fn printed_paths(output: Output, failed: Seq<char>) -> Result<
    Seq<Seq<char>>,
    ToolErrorView,
> {
    if !output.success {
        Err(ToolErrorView::Failed(failed + utf8_lossy(output.stderr@)))
    } else if !valid_utf8(output.stdout@) {
        Err(ToolErrorView::NotUtf8(utf8_fault(output.stdout@)))
    } else {
        Ok(trimmed_lines(decode_utf8(output.stdout@)))
    }
}

fn line_is_error(line: &[char]) -> (r: bool)
    ensures
        r == is_error_line(line@),
{
    let t = trimmed(line);
    has_part(t.as_slice(), ": error:") || has_prefix(t.as_slice(), "e: ") || has_part(
        t.as_slice(),
        "error: ",
    )
}

/// The errors in two lists of lines are those in the first and then those in the second.
proof fn lemma_error_lines_of_both(a: Seq<Seq<char>>, b: Seq<Seq<char>>)
    ensures
        error_lines(a + b) == error_lines(a) + error_lines(b),
    decreases b.len(),
{
    if b.len() == 0 {
        assert(a + b =~= a);
        assert(error_lines(a) + seq![] =~= error_lines(a));
    } else {
        lemma_error_lines_of_both(a, b.drop_last());
        assert((a + b).drop_last() =~= a + b.drop_last());
        assert((a + b).last() == b.last());
        if is_error_line(b.last()) {
            assert(error_lines(a) + error_lines(b.drop_last()).push(b.last()) =~= (error_lines(a)
                + error_lines(b.drop_last())).push(b.last()));
        }
    }
}

fn push_error_lines(all: &[Vec<char>], out: &mut Vec<String>)
    ensures
        texts(final(out)@) == texts(old(out)@) + error_lines(rows(all@)),
{
    let ghost before = texts(out@);
    let ghost ls = rows(all@);
    let mut i: usize = 0;
    assert(ls.take(0) =~= seq![]);
    assert(before + seq![] =~= before);
    while i < all.len()
        invariant
            i <= all@.len(),
            ls == rows(all@),
            texts(out@) == before + error_lines(ls.take(i as int)),
        decreases all@.len() - i,
    {
        let ghost so_far = texts(out@);
        assert(ls.take(i + 1).drop_last() =~= ls.take(i as int));
        assert(ls.take(i + 1).last() == all@[i as int]@);
        if line_is_error(all[i].as_slice()) {
            let s = string_of(all[i].as_slice());
            out.push(s);
            assert(texts(out@) =~= so_far.push(s@));
        }
        i += 1;
        assert(texts(out@) =~= before + error_lines(ls.take(i as int)));
    }
    assert(ls.take(i as int) =~= ls);
}

fn nonblank_lines(all: &[Vec<char>]) -> (v: Vec<String>)
    ensures
        texts(v@) == lines_with_text(rows(all@)),
{
    let mut v: Vec<String> = Vec::new();
    let ghost ls = rows(all@);
    let mut i: usize = 0;
    assert(ls.take(0) =~= seq![]);
    assert(texts(v@) =~= seq![]);
    while i < all.len()
        invariant
            i <= all@.len(),
            ls == rows(all@),
            texts(v@) == lines_with_text(ls.take(i as int)),
        decreases all@.len() - i,
    {
        let ghost so_far = texts(v@);
        assert(ls.take(i + 1).drop_last() =~= ls.take(i as int));
        assert(ls.take(i + 1).last() == all@[i as int]@);
        if trimmed(all[i].as_slice()).len() > 0 {
            let s = string_of(all[i].as_slice());
            v.push(s);
            assert(texts(v@) =~= so_far.push(s@));
        }
        i += 1;
    }
    assert(ls.take(i as int) =~= ls);
    v
}

fn find_errors(stdout: &str, stderr: &str) -> (v: Vec<String>)
    ensures
        texts(v@) == errors_in(stdout@, stderr@),
{
    let out = split_lines(chars_of(stdout).as_slice());
    let err = split_lines(chars_of(stderr).as_slice());
    let mut found: Vec<String> = Vec::new();
    push_error_lines(out.as_slice(), &mut found);
    push_error_lines(err.as_slice(), &mut found);
    proof {
        lemma_error_lines_of_both(rows(out@), rows(err@));
        assert(texts(found@) =~= error_lines(rows(out@)) + error_lines(rows(err@)));
    }
    if found.len() > 0 {
        assert(texts(found@).len() > 0);
        return found;
    }
    assert(texts(found@).len() == 0);
    let shown = nonblank_lines(out.as_slice());
    if shown.len() > 0 {
        assert(texts(shown@).len() > 0);
        return shown;
    }
    assert(texts(shown@).len() == 0);
    nonblank_lines(err.as_slice())
}

fn paths_printed(output: &Output, failed: &str) -> (r: Result<Vec<String>, ToolError>)
    ensures
        crate::build_tools::paths_are(r, printed_paths(*output, failed@)),
{
    if !output.success {
        let mut message = owned(failed);
        let why = lossy_text(output.stderr.as_slice());
        append(&mut message, why.as_str());
        return Err(ToolError::Failed(message));
    }
    let text = match text_from_utf8(output.stdout.as_slice()) {
        Err(why) => {
            return Err(ToolError::NotUtf8(why));
        },
        Ok(text) => text,
    };
    let all = split_lines(chars_of(text.as_str()).as_slice());
    let ghost want = trimmed_lines(text@);
    let mut v: Vec<String> = Vec::new();
    let mut i: usize = 0;
    assert(texts(v@) =~= want.take(0));
    while i < all.len()
        invariant
            i <= all@.len() == want.len(),
            rows(all@) == lines(text@),
            want == trimmed_lines(text@),
            texts(v@) == want.take(i as int),
        decreases all@.len() - i,
    {
        let ghost so_far = texts(v@);
        assert(lines(text@)[i as int] == all@[i as int]@);
        let s = string_of(trimmed(all[i].as_slice()).as_slice());
        v.push(s);
        assert(texts(v@) =~= so_far.push(s@));
        i += 1;
        assert(texts(v@) =~= want.take(i as int));
    }
    assert(want.take(i as int) =~= want);
    Ok(v)
}

impl GradleHandler {
    pub fn gradle_cmd(root: &str, existing: &[String]) -> (s: String)
        ensures
            s@ == gradle_program(root@, existing@),
    {
        let own = join_path(root, "gradlew");
        if list_has(existing, own.as_str()) {
            own
        } else {
            owned("gradle")
        }
    }

    fn script_run(root: &str, existing: &[String], path: String, text: &str, task: &str) -> (r:
        ToolRun)
        ensures
            r@ == script_call(root@, existing@, path@, text@, task@),
    {
        let mut args: Vec<String> = Vec::new();
        args.push(owned("-I"));
        args.push(path.clone());
        args.push(owned(task));
        args.push(owned("-q"));
        let r = ToolRun {
            program: Self::gradle_cmd(root, existing),
            dir: owned(root),
            args,
            script: Some(Script { path, text: owned(text) }),
        };
        assert(r@.args =~= seq!["-I"@, path@, task@, "-q"@]);
        r
    }
}

impl BuildToolHandler for GradleHandler {
    /// A project with a build or settings file of Gradle's.
    open spec fn manages(&self, root: Seq<char>, existing: Seq<String>) -> bool {
        has_text(existing, joined(root, "build.gradle"@)) || has_text(
            existing,
            joined(root, "build.gradle.kts"@),
        ) || has_text(existing, joined(root, "settings.gradle"@)) || has_text(
            existing,
            joined(root, "settings.gradle.kts"@),
        )
    }

    open spec fn configured_by(&self, path: Seq<char>) -> bool {
        file_name(path) matches Some(name) && (name == "build.gradle"@ || name
            == "build.gradle.kts"@ || name == "settings.gradle"@ || name == "settings.gradle.kts"@)
    }

    open spec fn build_call(&self, root: Seq<char>, existing: Seq<String>) -> Option<ToolRunView> {
        Some(
            ToolRunView {
                program: gradle_program(root, existing),
                dir: root,
                args: seq!["classes"@, "--console=plain"@],
                script: None,
            },
        )
    }

    /// Compiler errors are printed among the output, Gradle's own complaints beside it.
    open spec fn built(&self, output: Output) -> BuildResultView {
        if output.success {
            BuildResultView::clean()
        } else {
            BuildResultView {
                success: false,
                errors: errors_in(utf8_lossy(output.stdout@), utf8_lossy(output.stderr@)),
            }
        }
    }

    open spec fn source_roots_call(
        &self,
        root: Seq<char>,
        existing: Seq<String>,
        temp_dir: Seq<char>,
    ) -> Option<ToolRunView> {
        Some(
            script_call(
                root,
                existing,
                joined(temp_dir, "dap-gradle-source-roots.gradle"@),
                SOURCE_ROOTS_SCRIPT@,
                "dapSourceRoots"@,
            ),
        )
    }

    open spec fn source_roots_in(&self, root: Seq<char>, output: Output) -> Result<
        Seq<Seq<char>>,
        ToolErrorView,
    > {
        printed_paths(output, "gradle failed: "@)
    }

    open spec fn classpath_call(
        &self,
        root: Seq<char>,
        existing: Seq<String>,
        temp_dir: Seq<char>,
    ) -> Option<ToolRunView> {
        Some(
            script_call(
                root,
                existing,
                joined(temp_dir, "dap-gradle-classpath.gradle"@),
                CLASSPATH_SCRIPT@,
                "dapClasspath"@,
            ),
        )
    }

    open spec fn classpath_in(&self, root: Seq<char>, output: Output) -> Result<
        Seq<Seq<char>>,
        ToolErrorView,
    > {
        printed_paths(output, "gradle classpath query failed: "@)
    }

    fn is_project(&self, root: &str, existing: &[String]) -> (r: bool) {
        list_has(existing, join_path(root, "build.gradle").as_str()) || list_has(
            existing,
            join_path(root, "build.gradle.kts").as_str(),
        ) || list_has(existing, join_path(root, "settings.gradle").as_str()) || list_has(
            existing,
            join_path(root, "settings.gradle.kts").as_str(),
        )
    }

    fn is_build_file(&self, path: &str) -> (r: bool) {
        match path_file_name(path) {
            None => false,
            Some(name) => {
                let name = string_of(name.as_slice());
                same_text(name.as_str(), "build.gradle") || same_text(
                    name.as_str(),
                    "build.gradle.kts",
                ) || same_text(name.as_str(), "settings.gradle") || same_text(
                    name.as_str(),
                    "settings.gradle.kts",
                )
            },
        }
    }

    fn build_run(&self, root: &str, existing: &[String]) -> (r: Option<ToolRun>) {
        let mut args: Vec<String> = Vec::new();
        args.push(owned("classes"));
        args.push(owned("--console=plain"));
        let r = ToolRun {
            program: Self::gradle_cmd(root, existing),
            dir: owned(root),
            args,
            script: None,
        };
        assert(r@.args =~= seq!["classes"@, "--console=plain"@]);
        Some(r)
    }

    fn build(&self, output: &Output) -> (r: BuildResult) {
        if output.success {
            let r = BuildResult { success: true, errors: Vec::new() };
            assert(r@ =~= BuildResultView::clean());
            return r;
        }
        let stdout = lossy_text(output.stdout.as_slice());
        let stderr = lossy_text(output.stderr.as_slice());
        BuildResult { success: false, errors: find_errors(stdout.as_str(), stderr.as_str()) }
    }

    fn source_roots_run(&self, root: &str, existing: &[String], temp_dir: &str) -> (r: Option<
        ToolRun,
    >) {
        let path = join_path(temp_dir, "dap-gradle-source-roots.gradle");
        Some(Self::script_run(root, existing, path, SOURCE_ROOTS_SCRIPT, "dapSourceRoots"))
    }

    fn listed_source_roots(&self, _root: &str, output: &Output) -> (r: Result<
        Vec<String>,
        ToolError,
    >) {
        paths_printed(output, "gradle failed: ")
    }

    fn classpath_run(&self, root: &str, existing: &[String], temp_dir: &str) -> (r: Option<ToolRun>) {
        let path = join_path(temp_dir, "dap-gradle-classpath.gradle");
        Some(Self::script_run(root, existing, path, CLASSPATH_SCRIPT, "dapClasspath"))
    }

    fn listed_classpath(&self, _root: &str, output: &Output) -> (r: Result<Vec<String>, ToolError>) {
        paths_printed(output, "gradle classpath query failed: ")
    }
}

// ---------------------------------------------------------------------------
// What holds of Gradle projects
// ---------------------------------------------------------------------------

/// A project is Gradle's where one of Gradle's four files stands at its root, and a path leads to
/// such a file where its last name is one of the four.
pub proof fn law_gradle_projects_are_told_by_their_files(
    root: Seq<char>,
    existing: Seq<String>,
    dir: Seq<char>,
    name: Seq<char>,
)
    requires
        dir.len() > 0,
        name.len() > 0,
        !name.contains('/'),
        name != seq!['.'],
        name != seq!['.', '.'],
    ensures
        GradleHandler.manages(root, existing) <==> exists|i: int|
            0 <= i < existing.len() && {
                let p = (#[trigger] existing[i])@;
                p == joined(root, "build.gradle"@) || p == joined(root, "build.gradle.kts"@) || p
                    == joined(root, "settings.gradle"@) || p == joined(
                    root,
                    "settings.gradle.kts"@,
                )
            },
        GradleHandler.configured_by(joined(dir, name)) <==> name == "build.gradle"@ || name
            == "build.gradle.kts"@ || name == "settings.gradle"@ || name == "settings.gradle.kts"@,
{
    law_file_is_the_last_name(dir, name);
    let a = joined(root, "build.gradle"@);
    let b = joined(root, "build.gradle.kts"@);
    let c = joined(root, "settings.gradle"@);
    let d = joined(root, "settings.gradle.kts"@);
    if GradleHandler.manages(root, existing) {
        let i = choose|i: int|
            0 <= i < existing.len() && ((#[trigger] existing[i])@ == a || existing[i]@ == b
                || existing[i]@ == c || existing[i]@ == d);
        assert(existing[i]@ == a || existing[i]@ == b || existing[i]@ == c || existing[i]@ == d);
    }
}

/// The project's own Gradle is run where it has one, else the one on the path; in the project's
/// directory: to compile, with plain output; and to ask for source roots and the class path, with
/// the script that adds the task and the task.
pub proof fn law_gradle_is_run(root: Seq<char>, existing: Seq<String>, temp_dir: Seq<char>)
    ensures
        ({
            let own = exists|i: int|
                0 <= i < existing.len() && (#[trigger] existing[i])@ == joined(root, "gradlew"@);
            let program = if own {
                joined(root, "gradlew"@)
            } else {
                "gradle"@
            };
            let roots = joined(temp_dir, "dap-gradle-source-roots.gradle"@);
            let path = joined(temp_dir, "dap-gradle-classpath.gradle"@);
            &&& GradleHandler.build_call(root, existing) == Some(
                ToolRunView {
                    program,
                    dir: root,
                    args: seq!["classes"@, "--console=plain"@],
                    script: None,
                },
            )
            &&& GradleHandler.source_roots_call(root, existing, temp_dir) == Some(
                ToolRunView {
                    program,
                    dir: root,
                    args: seq!["-I"@, roots, "dapSourceRoots"@, "-q"@],
                    script: Some(ScriptView { path: roots, text: SOURCE_ROOTS_SCRIPT@ }),
                },
            )
            &&& GradleHandler.classpath_call(root, existing, temp_dir) == Some(
                ToolRunView {
                    program,
                    dir: root,
                    args: seq!["-I"@, path, "dapClasspath"@, "-q"@],
                    script: Some(ScriptView { path, text: CLASSPATH_SCRIPT@ }),
                },
            )
        }),
{
}

/// The lines that are taken for compiler errors are all those, and only those, that hold
/// `: error:` or `error: `, or start with `e: ` behind their white space; those that show
/// something are all that are not blank. Both stay in their order.
pub proof fn law_all_error_lines_are_found(all: Seq<Seq<char>>)
    ensures
        error_lines(all) == all.filter(
            |l: Seq<char>|
                contains(trim(l), ": error:"@) || contains(trim(l), "error: "@) || starts_with(
                    trim(l),
                    "e: "@,
                ),
        ),
        lines_with_text(all) == all.filter(|l: Seq<char>| trim(l).len() > 0),
    decreases all.len(),
{
    reveal(Seq::filter);
    if all.len() > 0 {
        law_all_error_lines_are_found(all.drop_last());
    }
    assert(error_lines(all) =~= all.filter(
        |l: Seq<char>|
            contains(trim(l), ": error:"@) || contains(trim(l), "error: "@) || starts_with(
                trim(l),
                "e: "@,
            ),
    ));
    assert(lines_with_text(all) =~= all.filter(|l: Seq<char>| trim(l).len() > 0));
}

/// A failed build shows the compiler errors of its output and then those beside it; where there
/// are none, its output; and where that is blank, what stands beside it. A build that succeeds
/// shows none.
pub proof fn law_a_failed_build_shows_its_errors(output: Output)
    ensures
        output.success ==> GradleHandler.built(output) == (BuildResultView {
            success: true,
            errors: seq![],
        }),
        !output.success ==> !GradleHandler.built(output).success,
        !output.success ==> GradleHandler.built(output).errors == ({
            let out = lines(utf8_lossy(output.stdout@));
            let err = lines(utf8_lossy(output.stderr@));
            if (error_lines(out) + error_lines(err)).len() > 0 {
                error_lines(out) + error_lines(err)
            } else if lines_with_text(out).len() > 0 {
                lines_with_text(out)
            } else {
                lines_with_text(err)
            }
        }),
{
    lemma_error_lines_of_both(
        lines(utf8_lossy(output.stdout@)),
        lines(utf8_lossy(output.stderr@)),
    );
}

/// The paths that Gradle prints are the lines of its output, without the white space around them,
/// in their order; where it fails, it is said that it did, and what it printed beside its output.
pub proof fn law_printed_lines_are_paths(root: Seq<char>, output: Output, i: int)
    ensures
        !output.success ==> GradleHandler.source_roots_in(root, output) == Err::<
            Seq<Seq<char>>,
            ToolErrorView,
        >(ToolErrorView::Failed("gradle failed: "@ + utf8_lossy(output.stderr@))),
        !output.success ==> GradleHandler.classpath_in(root, output) == Err::<
            Seq<Seq<char>>,
            ToolErrorView,
        >(ToolErrorView::Failed("gradle classpath query failed: "@ + utf8_lossy(output.stderr@))),
        output.success && valid_utf8(output.stdout@) ==> ({
            let all = lines(decode_utf8(output.stdout@));
            &&& GradleHandler.source_roots_in(root, output) is Ok
            &&& GradleHandler.classpath_in(root, output) == GradleHandler.source_roots_in(
                root,
                output,
            )
            &&& GradleHandler.source_roots_in(root, output)->Ok_0.len() == all.len()
            &&& 0 <= i < all.len() ==> GradleHandler.source_roots_in(root, output)->Ok_0[i] == trim(
                all[i],
            )
        }),
        output.success && !valid_utf8(output.stdout@) ==> GradleHandler.source_roots_in(
            root,
            output,
        ) == Err::<Seq<Seq<char>>, ToolErrorView>(
            ToolErrorView::NotUtf8(utf8_fault(output.stdout@)),
        ) && GradleHandler.classpath_in(root, output) == GradleHandler.source_roots_in(
            root,
            output,
        ),
{
}

} // verus!
