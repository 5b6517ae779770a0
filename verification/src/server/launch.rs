//! Getting a project ready to be debugged, step by step.
//!
//! A launch says what is to be done next: to look which paths exist, to run a program, to read
//! directories. It is told what came of it, and in the end either the JVM can be started, or it
//! is known why not.

use vstd::prelude::*;
use crate::build_tools::{
    get_build_tool, that_exist, tool_paths, below, BuildTool, BuildToolHandler, Output,
    ToolErrorView, ToolRun, keep_existing,
};
use crate::build_tools::gradle::GradleHandler;
use crate::build_tools::no_build_tool::NoBuildTool;
use crate::files::Tree;
use crate::launcher::{java_call, launch};
use crate::list::views;
use crate::main_class::{find_main_classes, main_classes, MainClass, MainClassView, Unreadable};
use crate::source_map::{
    all_candidates, build_source_map, classes_below, paths_to_probe, resolved_log, SourceMap,
};
use crate::text::{append, owned, texts};

verus! {

// ---------------------------------------------------------------------------
// The main class
// ---------------------------------------------------------------------------

/// How `Path`'s `Debug` writes a path.
pub uninterp spec fn quoted_path(path: Seq<char>) -> Seq<char>;

/// Formats a path by its `Debug`, which puts it in quotes and escapes what cannot be shown as it
/// is. The result depends on the path alone; how it looks is left unsaid.
#[verifier::external_body]
fn quote_path(path: &str) -> (s: String)
    ensures
        s@ == quoted_path(path@),
{
    format!("{:?}", std::path::Path::new(path))
}

/// The main class to start: the one that is asked for, else the first that is found. An error
/// where none is found, or where a source file cannot be read.
pub open spec fn main_choice(
    explicit: Option<Seq<char>>,
    found: Result<Seq<MainClassView>, Seq<char>>,
    root: Seq<char>,
) -> Result<Seq<char>, Seq<char>> {
    match explicit {
        Some(name) => Ok(name),
        None => match found {
            Err(why) => Err(why),
            Ok(all) => if all.len() == 0 {
                Err(
                    "no main class found under "@ + quoted_path(root)
                        + "; provide 'mainClass' in launch configuration"@,
                )
            } else {
                Ok(all[0].fully_qualified_name)
            },
        },
    }
}

/// Chooses the main class by what was found.
pub fn choose_main(
    explicit: Option<&str>,
    found: Result<Vec<MainClass>, Unreadable>,
    root: &str,
) -> (r: Result<String, String>)
    ensures
        match main_choice(
            match explicit {
                None => None,
                Some(s) => Some(s@),
            },
            match found {
                Ok(v) => Ok(views(v@)),
                Err(e) => Err(e.why@),
            },
            root@,
        ) {
            Ok(name) => r matches Ok(s) && s@ == name,
            Err(message) => r matches Err(s) && s@ == message,
        },
{
    if let Some(name) = explicit {
        return Ok(owned(name));
    }
    match found {
        Err(e) => Err(e.why),
        Ok(all) => {
            if all.len() == 0 {
                let mut s = owned("no main class found under ");
                append(&mut s, quote_path(root).as_str());
                append(&mut s, "; provide 'mainClass' in launch configuration");
                Err(s)
            } else {
                assert(views(all@)[0] == all@[0]@);
                Ok(all[0].fully_qualified_name.clone())
            }
        },
    }
}

// ---------------------------------------------------------------------------
// The steps
// ---------------------------------------------------------------------------

/// What a launch needs next.
#[derive(Debug, PartialEq, Eq)]
pub enum Step {
    /// Which of the paths exist, to tell the build tool.
    ProbeTool { paths: Vec<String> },
    /// To compile the project.
    Build { run: ToolRun },
    /// To learn the source roots.
    AskSourceRoots { run: ToolRun },
    /// Which of the source roots exist.
    ProbeSourceRoots { paths: Vec<String> },
    /// The source roots with all that is in them.
    ReadSources { roots: Vec<String> },
    /// To learn the class path.
    AskClasspath { run: ToolRun },
    /// Which of the class path's entries exist.
    ProbeClasspath { paths: Vec<String> },
    /// Those of the class path's entries that are directories, with all that is in them.
    ReadClasses { classpath: Vec<String> },
    /// Which of the places exist where source files may be.
    ProbeSources { paths: Vec<String> },
    /// To start the JVM.
    Start { run: ToolRun },
    /// Nothing: the project does not compile.
    BuildFailed { errors: Vec<String> },
    /// Nothing: it cannot go on.
    Failed { message: String },
}

/// A launch on its way.
pub struct Launch {
    pub root: String,
    /// The main class that is asked for.
    pub main_class: Option<String>,
    /// Where scripts can be written.
    pub temp_dir: String,
    /// What stands between the entries of a class path.
    pub separator: String,
    pub tool: BuildTool,
    /// Which of the paths exist that tell the build tool.
    pub existing: Vec<String>,
    pub sources: Vec<Tree>,
    pub classpath: Vec<String>,
    pub classes: Vec<Tree>,
    pub source_map: SourceMap,
    pub step: Step,
}

impl Launch {
    /// Whether the next step is to compile the project, or what follows where that takes
    /// nothing.
    pub open spec fn is_building(self) -> bool {
        match self.tool.build_call(self.root@, self.existing@) {
            Some(run) => self.step matches Step::Build { run: r } && r@ == run,
            None => self.is_asking_roots(),
        }
    }

    /// Whether the next step is to learn the source roots, or what follows where they are known.
    pub open spec fn is_asking_roots(self) -> bool {
        match self.tool.source_roots_call(self.root@, self.existing@, self.temp_dir@) {
            Some(run) => self.step matches Step::AskSourceRoots { run: r } && r@ == run,
            None => exists|o: Output| self.is_listing_roots(self.tool.source_roots_in(self.root@, o)),
        }
    }

    /// Whether the next step is to look which of the source roots exist.
    pub open spec fn is_listing_roots(self, listed: Result<Seq<Seq<char>>, ToolErrorView>) -> bool {
        match listed {
            Ok(paths) => self.step matches Step::ProbeSourceRoots { paths: p } && texts(p@) == paths,
            Err(e) => self.step matches Step::Failed { message } && message@ == e.text(),
        }
    }

    /// Whether the next step is to learn the class path, or what follows where it is known.
    pub open spec fn is_asking_classpath(self) -> bool {
        match self.tool.classpath_call(self.root@, self.existing@, self.temp_dir@) {
            Some(run) => self.step matches Step::AskClasspath { run: r } && r@ == run,
            None => exists|o: Output|
                self.is_listing_classpath(self.tool.classpath_in(self.root@, o)),
        }
    }

    /// Whether the next step is to look which of the class path's entries exist.
    pub open spec fn is_listing_classpath(
        self,
        listed: Result<Seq<Seq<char>>, ToolErrorView>,
    ) -> bool {
        match listed {
            Ok(paths) => self.step matches Step::ProbeClasspath { paths: p } && texts(p@) == paths,
            Err(e) => self.step matches Step::Failed { message } && message@ == e.text(),
        }
    }

    /// The main class that is asked for.
    pub open spec fn asked_main(self) -> Option<Seq<char>> {
        match self.main_class {
            None => None,
            Some(s) => Some(s@),
        }
    }

    /// Whether what a launch was started with is the same in another.
    pub open spec fn same_request(self, other: Launch) -> bool {
        &&& self.root == other.root
        &&& self.temp_dir == other.temp_dir
        &&& self.separator == other.separator
    }

    /// Starts a launch of the project at `root`.
    pub fn new(root: String, main_class: Option<String>, temp_dir: String, separator: String) -> (l:
        Launch)
        ensures
            l.root == root,
            l.main_class == main_class,
            l.temp_dir == temp_dir,
            l.separator == separator,
            l.tool == BuildTool::NoTool(NoBuildTool),
            l.existing@.len() == 0,
            l.sources@.len() == 0,
            l.classpath@.len() == 0,
            l.classes@.len() == 0,
            l.source_map.wf(),
            l.source_map@.len() == 0,
            l.step matches Step::ProbeTool { paths } && texts(paths@) == below(
                root@,
                seq![
                    "build.gradle"@,
                    "build.gradle.kts"@,
                    "settings.gradle"@,
                    "settings.gradle.kts"@,
                    "gradlew"@,
                ],
            ),
    {
        let paths = tool_paths(root.as_str());
        Launch {
            root,
            main_class,
            temp_dir,
            separator,
            tool: BuildTool::NoTool(NoBuildTool),
            existing: Vec::new(),
            sources: Vec::new(),
            classpath: Vec::new(),
            classes: Vec::new(),
            source_map: SourceMap::new(),
            step: Step::ProbeTool { paths },
        }
    }

    fn list_roots(&mut self, output: &Output)
        ensures
            final(self).is_listing_roots(
                old(self).tool.source_roots_in(old(self).root@, *output),
            ),
            *final(self) == (Launch { step: final(self).step, ..*old(self) }),
    {
        self.step = match self.tool.listed_source_roots(self.root.as_str(), output) {
            Ok(paths) => Step::ProbeSourceRoots { paths },
            Err(e) => Step::Failed { message: e.message() },
        };
    }

    fn ask_roots(&mut self)
        ensures
            final(self).is_asking_roots(),
            *final(self) == (Launch { step: final(self).step, ..*old(self) }),
    {
        match self.tool.source_roots_run(
            self.root.as_str(),
            self.existing.as_slice(),
            self.temp_dir.as_str(),
        ) {
            Some(run) => {
                self.step = Step::AskSourceRoots { run };
            },
            None => {
                let output = Output::nothing();
                self.list_roots(&output);
                assert(self.is_listing_roots(self.tool.source_roots_in(self.root@, output)));
            },
        }
    }

    fn list_classpath(&mut self, output: &Output)
        ensures
            final(self).is_listing_classpath(
                old(self).tool.classpath_in(old(self).root@, *output),
            ),
            *final(self) == (Launch { step: final(self).step, ..*old(self) }),
    {
        self.step = match self.tool.listed_classpath(self.root.as_str(), output) {
            Ok(paths) => Step::ProbeClasspath { paths },
            Err(e) => Step::Failed { message: e.message() },
        };
    }

    fn ask_classpath(&mut self)
        ensures
            final(self).is_asking_classpath(),
            *final(self) == (Launch { step: final(self).step, ..*old(self) }),
    {
        match self.tool.classpath_run(
            self.root.as_str(),
            self.existing.as_slice(),
            self.temp_dir.as_str(),
        ) {
            Some(run) => {
                self.step = Step::AskClasspath { run };
            },
            None => {
                let output = Output::nothing();
                self.list_classpath(&output);
                assert(self.is_listing_classpath(self.tool.classpath_in(self.root@, output)));
            },
        }
    }

    /// Takes which of the paths exist that were asked for. `existing` holds the paths as they
    /// were asked for.
    pub fn probed(&mut self, existing: Vec<String>)
        ensures
            final(self).same_request(*old(self)),
            final(self).main_class == old(self).main_class,
            match old(self).step {
                Step::ProbeTool { .. } => {
                    &&& *final(self) == (Launch {
                        step: final(self).step,
                        tool: final(self).tool,
                        existing: final(self).existing,
                        ..*old(self)
                    })
                    &&& final(self).existing == existing
                    &&& final(self).tool == if GradleHandler.manages(old(self).root@, existing@) {
                        BuildTool::Gradle(GradleHandler)
                    } else {
                        BuildTool::NoTool(NoBuildTool)
                    }
                    &&& final(self).is_building()
                },
                Step::ProbeSourceRoots { paths } => {
                    &&& *final(self) == (Launch { step: final(self).step, ..*old(self) })
                    &&& final(self).step matches Step::ReadSources { roots } && texts(roots@)
                        == that_exist(texts(paths@), existing@)
                },
                Step::ProbeClasspath { paths } => {
                    &&& *final(self) == (Launch {
                        step: final(self).step,
                        classpath: final(self).classpath,
                        ..*old(self)
                    })
                    &&& texts(final(self).classpath@) == that_exist(texts(paths@), existing@)
                    &&& final(self).step matches Step::ReadClasses { classpath } && texts(
                        classpath@,
                    ) == texts(final(self).classpath@)
                },
                Step::ProbeSources { .. } => {
                    &&& *final(self) == (Launch {
                        step: final(self).step,
                        source_map: final(self).source_map,
                        ..*old(self)
                    })
                    &&& final(self).source_map.wf()
                    &&& final(self).source_map@ == resolved_log(
                        classes_below(old(self).classes@),
                        old(self).sources@,
                        existing@,
                    )
                    &&& final(self).step matches Step::Start { run } && run@ == java_call(
                        old(self).root@,
                        texts(old(self).classpath@),
                        match old(self).main_class {
                            Some(s) => s@,
                            None => seq![],
                        },
                        old(self).separator@,
                    )
                },
                _ => *final(self) == *old(self),
            },
    {
        let mut step = Step::ReadSources { roots: Vec::new() };
        std::mem::swap(&mut step, &mut self.step);
        match step {
            Step::ProbeTool { paths } => {
                self.tool = get_build_tool(self.root.as_str(), existing.as_slice());
                self.existing = existing;
                match self.tool.build_run(self.root.as_str(), self.existing.as_slice()) {
                    Some(run) => {
                        self.step = Step::Build { run };
                    },
                    None => {
                        self.ask_roots();
                    },
                }
            },
            Step::ProbeSourceRoots { paths } => {
                let roots = keep_existing(paths, existing.as_slice());
                self.step = Step::ReadSources { roots };
            },
            Step::ProbeClasspath { paths } => {
                let classpath = keep_existing(paths, existing.as_slice());
                self.step = Step::ReadClasses { classpath: copy_texts(&classpath) };
                self.classpath = classpath;
            },
            Step::ProbeSources { paths } => {
                self.source_map = build_source_map(
                    self.classes.as_slice(),
                    self.sources.as_slice(),
                    existing.as_slice(),
                );
                let main_class = match &self.main_class {
                    Some(s) => s.clone(),
                    None => {
                        let s = String::new();
                        assert(s@ =~= seq![]);
                        s
                    },
                };
                self.step = Step::Start {
                    run: launch(
                        self.root.as_str(),
                        self.classpath.as_slice(),
                        main_class.as_str(),
                        self.separator.as_str(),
                    ),
                };
            },
            other => {
                self.step = other;
            },
        }
    }

    /// Takes what the program gave back that was to be run, or why it could not be run.
    pub fn ran(&mut self, outcome: Result<Output, String>)
        ensures
            *final(self) == (Launch { step: final(self).step, ..*old(self) }),
            match old(self).step {
                Step::Build { .. } => match outcome {
                    Err(why) => final(self).step matches Step::Failed { message } && message@
                        == "failed to execute gradle: "@ + why@,
                    Ok(output) => if old(self).tool.built(output).success {
                        final(self).is_asking_roots()
                    } else {
                        final(self).step matches Step::BuildFailed { errors } && texts(errors@)
                            == old(self).tool.built(output).errors
                    },
                },
                Step::AskSourceRoots { .. } => match outcome {
                    Err(why) => final(self).step matches Step::Failed { message } && message@
                        == "failed to execute gradle: "@ + why@,
                    Ok(output) => final(self).is_listing_roots(
                        old(self).tool.source_roots_in(old(self).root@, output),
                    ),
                },
                Step::AskClasspath { .. } => match outcome {
                    Err(why) => final(self).step matches Step::Failed { message } && message@
                        == "failed to execute gradle for classpath: "@ + why@,
                    Ok(output) => final(self).is_listing_classpath(
                        old(self).tool.classpath_in(old(self).root@, output),
                    ),
                },
                _ => *final(self) == *old(self),
            },
    {
        match &self.step {
            Step::Build { run } => match outcome {
                Err(why) => {
                    let mut message = owned("failed to execute gradle: ");
                    append(&mut message, why.as_str());
                    self.step = Step::Failed { message };
                },
                Ok(output) => {
                    let built = self.tool.build(&output);
                    if built.success {
                        self.ask_roots();
                    } else {
                        self.step = Step::BuildFailed { errors: built.errors };
                    }
                },
            },
            Step::AskSourceRoots { run } => match outcome {
                Err(why) => {
                    let mut message = owned("failed to execute gradle: ");
                    append(&mut message, why.as_str());
                    self.step = Step::Failed { message };
                },
                Ok(output) => {
                    self.list_roots(&output);
                },
            },
            Step::AskClasspath { run } => match outcome {
                Err(why) => {
                    let mut message = owned("failed to execute gradle for classpath: ");
                    append(&mut message, why.as_str());
                    self.step = Step::Failed { message };
                },
                Ok(output) => {
                    self.list_classpath(&output);
                },
            },
            _ => {},
        }
    }

    /// Takes the directories that were to be read.
    pub fn read(&mut self, trees: Vec<Tree>)
        ensures
            final(self).same_request(*old(self)),
            match old(self).step {
                Step::ReadSources { .. } => {
                    &&& final(self).sources == trees
                    &&& *final(self) == (Launch {
                        step: final(self).step,
                        sources: final(self).sources,
                        main_class: final(self).main_class,
                        ..*old(self)
                    })
                    &&& match main_choice(
                        old(self).asked_main(),
                        main_classes(trees@),
                        old(self).root@,
                    ) {
                        Ok(name) => final(self).asked_main() == Some(name)
                            && final(self).is_asking_classpath(),
                        Err(message) => final(self).step matches Step::Failed { message: m } && m@
                            == message,
                    }
                },
                Step::ReadClasses { .. } => {
                    &&& final(self).classes == trees
                    &&& *final(self) == (Launch {
                        step: final(self).step,
                        classes: final(self).classes,
                        ..*old(self)
                    })
                    &&& final(self).step matches Step::ProbeSources { paths } && texts(paths@)
                        == all_candidates(classes_below(trees@), old(self).sources@)
                },
                _ => *final(self) == *old(self),
            },
    {
        match &self.step {
            Step::ReadSources { roots } => {
                let chosen = if let Some(name) = &self.main_class {
                    Ok(name.clone())
                } else {
                    let found = find_main_classes(trees.as_slice());
                    choose_main(None, found, self.root.as_str())
                };
                self.sources = trees;
                match chosen {
                    Ok(name) => {
                        self.main_class = Some(name);
                        self.ask_classpath();
                    },
                    Err(message) => {
                        self.step = Step::Failed { message };
                    },
                }
            },
            Step::ReadClasses { classpath } => {
                let paths = paths_to_probe(trees.as_slice(), self.sources.as_slice());
                self.classes = trees;
                self.step = Step::ProbeSources { paths };
            },
            _ => {},
        }
    }
}

pub(crate) fn copy_texts(list: &Vec<String>) -> (v: Vec<String>)
    ensures
        texts(v@) == texts(list@),
{
    let mut v: Vec<String> = Vec::new();
    let ghost all = texts(list@);
    let mut i: usize = 0;
    assert(texts(v@) =~= all.take(0));
    while i < list.len()
        invariant
            i <= list@.len() == all.len(),
            all == texts(list@),
            texts(v@) == all.take(i as int),
        decreases list@.len() - i,
    {
        let ghost before = texts(v@);
        v.push(list[i].clone());
        assert(texts(v@) =~= before.push(all[i as int]));
        i += 1;
        assert(texts(v@) =~= all.take(i as int));
    }
    assert(all.take(i as int) =~= all);
    v
}

/// The main class that is asked for is started, whatever is found; else the first that is found;
/// and where a source file cannot be read, or none is found, it is said why not.
pub proof fn law_the_main_class_is_chosen(
    name: Seq<char>,
    found: Result<Seq<MainClassView>, Seq<char>>,
    root: Seq<char>,
)
    ensures
        main_choice(Some(name), found, root) == Ok::<Seq<char>, Seq<char>>(name),
        found matches Err(why) ==> main_choice(None, found, root) == Err::<Seq<char>, Seq<char>>(why),
        found matches Ok(all) ==> all.len() > 0 ==> main_choice(None, found, root) == Ok::<
            Seq<char>,
            Seq<char>,
        >(all[0].fully_qualified_name),
        found matches Ok(all) ==> all.len() == 0 ==> main_choice(None, found, root) == Err::<
            Seq<char>,
            Seq<char>,
        >(
            "no main class found under "@ + quoted_path(root)
                + "; provide 'mainClass' in launch configuration"@,
        ),
{
}

/// A launch goes on by what its tool says: the tool is run where it has something to run, and what
/// it lists is then looked for, path by path; where the tool fails, the launch says so.
pub proof fn law_a_launch_looks_for_all_that_is_listed(
    l: Launch,
    paths: Seq<Seq<char>>,
    e: ToolErrorView,
    run: ToolRun,
)
    ensures
        l.is_listing_roots(Ok(paths)) ==> l.step is ProbeSourceRoots && texts(
            l.step->ProbeSourceRoots_paths@,
        ) == paths,
        l.is_listing_classpath(Ok(paths)) ==> l.step is ProbeClasspath && texts(
            l.step->ProbeClasspath_paths@,
        ) == paths,
        l.is_listing_roots(Err(e)) ==> l.step is Failed && l.step->Failed_message@ == e.text(),
        l.is_listing_classpath(Err(e)) ==> l.step is Failed && l.step->Failed_message@ == e.text(),
        l.is_building() && l.tool.build_call(l.root@, l.existing@) is Some ==> l.step is Build
            && l.step->Build_run@ == l.tool.build_call(l.root@, l.existing@)->0,
        l.is_building() && l.tool.build_call(l.root@, l.existing@) is None ==> l.is_asking_roots(),
        l.is_asking_roots() && l.tool.source_roots_call(
            l.root@,
            l.existing@,
            l.temp_dir@,
        ) is Some ==> l.step is AskSourceRoots && l.step->AskSourceRoots_run@
            == l.tool.source_roots_call(l.root@, l.existing@, l.temp_dir@)->0,
        l.is_asking_classpath() && l.tool.classpath_call(
            l.root@,
            l.existing@,
            l.temp_dir@,
        ) is Some ==> l.step is AskClasspath && l.step->AskClasspath_run@ == l.tool.classpath_call(
            l.root@,
            l.existing@,
            l.temp_dir@,
        )->0,
        l.tool is NoTool && l.is_building() ==> l.step is ProbeSourceRoots,
        l.tool is NoTool && l.is_asking_classpath() ==> l.step is ProbeClasspath,
{
}

} // verus!
