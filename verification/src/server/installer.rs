//! Setting breakpoints in the classes that are loaded, and in a class that is being loaded.
//!
//! Both are done question by question: `next` says what to ask the JVM, and `supply` takes what
//! came back, until there is nothing more to ask.

use vstd::prelude::*;
use crate::jdwp::client::{breakpoint_request, Command, CommandView, JdwpClient};
use crate::jdwp::read::{get_list, get_u32, JdwpError};
use crate::jdwp::{ClassInfo, ClassInfoView, Location};
use crate::list::views;
use crate::server::breakpoints::{class_requests, Target};
use crate::server::lines::{
    in_gap, law_collector_comes_to_an_end, law_nearest_is_nearest, nearest, nearest_line,
    LineCollector, LineCollectorView,
};
use crate::server::{binary_name, reply_view, signature_to_binary_name, Reply};
use crate::text::{has_text, list_has, texts};

verus! {

// ---------------------------------------------------------------------------
// What the answers say
// ---------------------------------------------------------------------------

/// The classes in the answer; none where there is no answer.
pub open spec fn classes_in(reply: Result<Seq<u8>, JdwpError>) -> Seq<ClassInfoView> {
    match reply {
        Ok(d) => match get_list::<ClassInfo>(d, 0) {
            Ok((classes, _)) => classes,
            Err(_) => seq![],
        },
        Err(_) => seq![],
    }
}

/// The number of the request in the answer, unless the JVM refused it.
pub open spec fn request_in(reply: Result<Seq<u8>, JdwpError>) -> Option<u32> {
    match reply {
        Ok(d) => match get_u32(d, 0) {
            Ok((n, _)) => Some(n),
            Err(_) => None,
        },
        Err(_) => None,
    }
}

fn read_classes(reply: &Reply) -> (v: Vec<ClassInfo>)
    ensures
        views(v@) == classes_in(reply_view(*reply)),
{
    if let Ok(data) = reply {
        if let Ok(classes) = JdwpClient::vm_all_classes_reply(data.as_slice()) {
            return classes;
        }
    }
    let v: Vec<ClassInfo> = Vec::new();
    assert(views(v@) =~= seq![]);
    v
}

fn read_request(reply: &Reply) -> (r: Option<u32>)
    ensures
        r == request_in(reply_view(*reply)),
{
    match reply {
        Ok(data) => match JdwpClient::event_request_reply(data.as_slice()) {
            Ok(n) => Some(n),
            Err(_) => None,
        },
        Err(_) => None,
    }
}

// ---------------------------------------------------------------------------
// Classes that are loaded
// ---------------------------------------------------------------------------

/// A loaded class that a breakpoint may go into.
pub struct LoadedClass {
    pub name: String,
    pub ref_type_tag: u8,
    pub ref_type_id: u64,
}

pub struct LoadedClassView {
    pub name: Seq<char>,
    pub ref_type_tag: u8,
    pub ref_type_id: u64,
}

impl View for LoadedClass {
    type V = LoadedClassView;

    open spec fn view(&self) -> LoadedClassView {
        LoadedClassView {
            name: self.name@,
            ref_type_tag: self.ref_type_tag,
            ref_type_id: self.ref_type_id,
        }
    }
}

/// The loaded classes whose names are among the given ones.
pub open spec fn among(classes: Seq<ClassInfoView>, names: Seq<Seq<char>>) -> Seq<LoadedClassView>
    decreases classes.len(),
{
    if classes.len() == 0 {
        seq![]
    } else if names.contains(binary_name(classes.last().signature)) {
        among(classes.drop_last(), names).push(
            LoadedClassView {
                name: binary_name(classes.last().signature),
                ref_type_tag: classes.last().ref_type_tag,
                ref_type_id: classes.last().ref_type_id,
            },
        )
    } else {
        among(classes.drop_last(), names)
    }
}

/// A breakpoint that has been set in a class.
pub struct SetIn {
    pub class: String,
    pub line: u32,
    pub request: u32,
}

pub struct SetInView {
    pub class: Seq<char>,
    pub line: u32,
    pub request: u32,
}

impl View for SetIn {
    type V = SetInView;

    open spec fn view(&self) -> SetInView {
        SetInView { class: self.class@, line: self.line, request: self.request }
    }
}

/// Where a breakpoint has been set: the topmost line, and all classes with their requests.
#[derive(Debug, PartialEq, Eq)]
pub struct Placement {
    pub line: u32,
    pub classes: Vec<(String, u32)>,
}

#[verifier::ext_equal]
pub struct PlacementView {
    pub line: u32,
    pub classes: Seq<(Seq<char>, u32)>,
}

impl View for Placement {
    type V = PlacementView;

    open spec fn view(&self) -> PlacementView {
        PlacementView { line: self.line, classes: class_requests(self.classes@) }
    }
}

/// The placements that there are, or are not, by their views.
pub open spec fn outcomes(v: Seq<Option<Placement>>) -> Seq<Option<PlacementView>> {
    v.map_values(
        |p: Option<Placement>|
            match p {
                None => None,
                Some(x) => Some(x@),
            },
    )
}

/// The topmost of the lines at which a breakpoint has been set.
pub open spec fn topmost(found: Seq<SetInView>) -> u32
    decreases found.len(),
{
    if found.len() <= 1 {
        found[0].line
    } else if found.last().line < topmost(found.drop_last()) {
        found.last().line
    } else {
        topmost(found.drop_last())
    }
}

/// What setting a breakpoint in classes came to; nothing where it was set in none.
pub open spec fn placement(found: Seq<SetInView>) -> Option<PlacementView> {
    if found.len() == 0 {
        None
    } else {
        Some(
            PlacementView {
                line: topmost(found),
                classes: found.map_values(|f: SetInView| (f.class, f.request)),
            },
        )
    }
}

/// The line that is reported is one of those at which the breakpoint was set, and none of them
/// is above it.
pub proof fn law_reported_line_is_topmost(found: Seq<SetInView>)
    requires
        found.len() > 0,
    ensures
        exists|i: int| 0 <= i < found.len() && (#[trigger] found[i]).line == topmost(found),
        forall|i: int| 0 <= i < found.len() ==> topmost(found) <= (#[trigger] found[i]).line,
    decreases found.len(),
{
    if found.len() == 1 {
        assert(found[0].line == topmost(found));
    } else {
        let less = found.drop_last();
        law_reported_line_is_topmost(less);
        let k = choose|k: int| 0 <= k < less.len() && (#[trigger] less[k]).line == topmost(less);
        assert(found[k] == less[k]);
        assert(found[found.len() - 1] == found.last());
        assert forall|i: int| 0 <= i < found.len() implies topmost(found) <= (#[trigger] found[i]).line by {
            if i < less.len() {
                assert(less[i] == found[i]);
            }
        }
    }
}

/// Sets breakpoints in the classes that are loaded. For each breakpoint, the loaded classes are
/// asked for; for each class that was compiled from the source file, its lines; and where a
/// line is near enough, the breakpoint is set.
pub struct Installer {
    pub class_names: Vec<String>,
    pub targets: Vec<Target>,
    /// What setting the first breakpoints came to.
    pub results: Vec<Option<Placement>>,
    /// The classes for the breakpoint in hand; none before they are known.
    pub loaded: Option<Vec<LoadedClass>>,
    /// The class in hand.
    pub at: usize,
    pub collector: LineCollector,
    /// Where the breakpoint is being set.
    pub placing: Option<(u32, Location)>,
    /// Where the breakpoint in hand has been set so far.
    pub found: Vec<SetIn>,
}

#[verifier::ext_equal]
pub struct InstallerView {
    pub class_names: Seq<Seq<char>>,
    pub targets: Seq<Target>,
    pub results: Seq<Option<PlacementView>>,
    pub loaded: Option<Seq<LoadedClassView>>,
    pub at: nat,
    pub collector: LineCollectorView,
    pub placing: Option<(u32, Location)>,
    pub found: Seq<SetInView>,
}

impl View for Installer {
    type V = InstallerView;

    open spec fn view(&self) -> InstallerView {
        InstallerView {
            class_names: texts(self.class_names@),
            targets: self.targets@,
            results: outcomes(self.results@),
            loaded: match self.loaded {
                None => None,
                Some(l) => Some(views(l@)),
            },
            at: self.at as nat,
            collector: self.collector@,
            placing: self.placing,
            found: views(self.found@),
        }
    }
}

impl InstallerView {
    /// Where no class was compiled from the source file, nothing is to be done.
    pub open spec fn new(class_names: Seq<Seq<char>>, targets: Seq<Target>) -> InstallerView {
        InstallerView {
            class_names,
            targets,
            results: if class_names.len() == 0 {
                Seq::new(targets.len(), |i: int| None)
            } else {
                seq![]
            },
            loaded: None,
            at: 0,
            collector: LineCollectorView::new(0, 0),
            placing: None,
            found: seq![],
        }
    }

    /// Whether all breakpoints have been dealt with.
    pub open spec fn is_done(self) -> bool {
        self.results.len() >= self.targets.len()
    }

    pub open spec fn asks(self) -> Option<CommandView> {
        if self.is_done() {
            None
        } else {
            match self.loaded {
                None => Some(CommandView { set: 1, cmd: 20, data: seq![] }),
                Some(_) => match self.placing {
                    Some((_, location)) => Some(breakpoint_request(location)),
                    None => self.collector.asks(),
                },
            }
        }
    }

    /// How many breakpoints have not been dealt with.
    pub open spec fn targets_left(self) -> nat {
        if self.is_done() {
            0
        } else {
            (self.targets.len() - self.results.len()) as nat
        }
    }

    /// One before the classes for the breakpoint in hand are known, then zero.
    pub open spec fn classes_unknown(self) -> nat {
        if self.loaded is None {
            1
        } else {
            0
        }
    }

    /// How many of the classes for the breakpoint in hand have not been dealt with.
    pub open spec fn classes_left(self) -> nat {
        match self.loaded {
            None => 0,
            Some(l) => if self.at < l.len() {
                (l.len() - self.at) as nat
            } else {
                0
            },
        }
    }

    /// The breakpoint in hand is dealt with.
    pub open spec fn finished(self) -> InstallerView {
        InstallerView {
            results: self.results.push(placement(self.found)),
            loaded: None,
            at: 0,
            placing: None,
            found: seq![],
            ..self
        }
    }

    /// The class with index `at` is taken in hand; where there is none, the breakpoint is dealt
    /// with.
    pub open spec fn at_class(self, at: nat) -> InstallerView {
        match self.loaded {
            Some(l) => if at < l.len() {
                InstallerView {
                    at,
                    collector: LineCollectorView::new(
                        l[at as int].ref_type_tag,
                        l[at as int].ref_type_id,
                    ),
                    placing: None,
                    ..self
                }
            } else {
                self.finished()
            },
            None => self.finished(),
        }
    }

    pub open spec fn told(self, reply: Result<Seq<u8>, JdwpError>) -> InstallerView {
        if self.is_done() {
            self
        } else {
            match self.loaded {
                None => InstallerView {
                    loaded: Some(among(classes_in(reply), self.class_names)),
                    ..self
                }.at_class(0),
                Some(l) => match self.placing {
                    Some((line, _)) => match request_in(reply) {
                        None => self.at_class(self.at + 1),
                        Some(request) => InstallerView {
                            found: self.found.push(
                                SetInView { class: l[self.at as int].name, line, request },
                            ),
                            ..self
                        }.at_class(self.at + 1),
                    },
                    None => {
                        let collector = self.collector.told(reply);
                        let known = InstallerView { collector, ..self };
                        if collector.asks() is Some {
                            known
                        } else {
                            match nearest(
                                collector.lines,
                                self.targets[self.results.len() as int].line,
                            ) {
                                Some(place) => InstallerView { placing: Some(place), ..known },
                                None => known.at_class(self.at + 1),
                            }
                        }
                    },
                },
            }
        }
    }

    /// What always holds: the class in hand is one of those that are loaded, and there is
    /// something to ask about it; and where the breakpoint is being set, or has been set, its
    /// line is near enough to the requested one.
    pub open spec fn inv(self) -> bool {
        &&& self.loaded matches Some(l) ==> self.at < l.len() && !self.is_done()
        &&& self.loaded is Some && self.placing is None ==> self.collector.asks() is Some
        &&& self.placing matches Some((line, _)) ==> !self.is_done()
            && in_gap(
            line,
            self.targets[self.results.len() as int].line,
        )
        &&& self.loaded is None ==> self.placing is None && self.found.len() == 0
        &&& self.is_done() ==> self.results.len() == self.targets.len()
        &&& forall|i: int|
            0 <= i < self.found.len() ==> in_gap(
                (#[trigger] self.found[i]).line,
                self.targets[self.results.len() as int].line,
            )
        &&& forall|k: int|
            0 <= k < self.results.len() ==> (#[trigger] self.results[k] matches Some(p)
                ==> in_gap(p.line, self.targets[k].line))
    }
}

/// A breakpoint is only ever set near the line that was asked for: every answer keeps that so.
pub proof fn law_installer_keeps_near(v: InstallerView, reply: Result<Seq<u8>, JdwpError>)
    requires
        v.inv(),
    ensures
        v.told(reply).inv(),
{
    if !v.is_done() {
        match v.loaded {
            None => {
                let w = InstallerView {
                    loaded: Some(among(classes_in(reply), v.class_names)),
                    ..v
                };
                lemma_at_class(w, 0);
            },
            Some(l) => match v.placing {
                Some((line, _)) => match request_in(reply) {
                    None => {
                        lemma_at_class(v, v.at + 1);
                    },
                    Some(request) => {
                        let w = InstallerView {
                            found: v.found.push(
                                SetInView { class: l[v.at as int].name, line, request },
                            ),
                            ..v
                        };
                        lemma_at_class(w, v.at + 1);
                    },
                },
                None => {
                    let collector = v.collector.told(reply);
                    let known = InstallerView { collector, ..v };
                    let line = v.targets[v.results.len() as int].line;
                    law_nearest_is_nearest(collector.lines, line);
                    lemma_at_class(known, v.at + 1);
                },
            },
        }
    }
}

/// The installer asks until all breakpoints have been dealt with.
pub proof fn law_installer_asks_until_done(v: InstallerView)
    requires
        v.inv(),
    ensures
        v.asks() is None <==> v.is_done(),
{
}

/// Each answer brings the installer nearer to its end, so that its questions come to one.
pub proof fn law_installer_comes_to_an_end(v: InstallerView, reply: Result<Seq<u8>, JdwpError>)
    requires
        v.inv(),
        v.asks() is Some,
    ensures
        decreases_to!(
            v.targets_left(),
            v.classes_unknown(),
            v.classes_left(),
            v.collector.methods_unknown(),
            v.collector.methods_left() =>
            v.told(reply).targets_left(),
            v.told(reply).classes_unknown(),
            v.told(reply).classes_left(),
            v.told(reply).collector.methods_unknown(),
            v.told(reply).collector.methods_left()
        ),
{
    if v.loaded is Some && v.placing is None {
        law_collector_comes_to_an_end(v.collector, reply);
    }
}

proof fn lemma_at_class(v: InstallerView, at: nat)
    requires
        !v.is_done(),
        v.loaded is Some,
        forall|i: int|
            0 <= i < v.found.len() ==> in_gap(
                (#[trigger] v.found[i]).line,
                v.targets[v.results.len() as int].line,
            ),
        forall|k: int|
            0 <= k < v.results.len() ==> (#[trigger] v.results[k] matches Some(p)
                ==> in_gap(p.line, v.targets[k].line)),
    ensures
        v.at_class(at).inv(),
{
    if v.found.len() > 0 {
        law_reported_line_is_topmost(v.found);
        let i = choose|i: int|
            0 <= i < v.found.len() && (#[trigger] v.found[i]).line == topmost(v.found);
        assert(in_gap(
            v.found[i].line,
            v.targets[v.results.len() as int].line,
        ));
    }
}

fn loaded_among(classes: &[ClassInfo], names: &[String]) -> (v: Vec<LoadedClass>)
    ensures
        views(v@) == among(views(classes@), texts(names@)),
{
    let mut v: Vec<LoadedClass> = Vec::new();
    let ghost all = views(classes@);
    let mut i: usize = 0;
    assert(all.take(0) =~= seq![]);
    assert(views(v@) =~= seq![]);
    while i < classes.len()
        invariant
            i <= classes@.len(),
            all == views(classes@),
            views(v@) == among(all.take(i as int), texts(names@)),
        decreases classes@.len() - i,
    {
        let ghost before = views(v@);
        assert(all.take(i + 1).drop_last() =~= all.take(i as int));
        assert(all.take(i + 1).last() == classes@[i as int]@);
        let name = signature_to_binary_name(classes[i].signature.as_str());
        proof {
            assert(has_text(names@, name@) == texts(names@).contains(name@)) by {
                crate::text::lemma_has_text(names@, name@);
            }
        }
        if list_has(names, name.as_str()) {
            let class = LoadedClass {
                name,
                ref_type_tag: classes[i].ref_type_tag,
                ref_type_id: classes[i].ref_type_id,
            };
            v.push(class);
            assert(views(v@) =~= before.push(class@));
        }
        i += 1;
    }
    assert(all.take(i as int) =~= all);
    v
}

fn place(found: &Vec<SetIn>) -> (r: Option<Placement>)
    ensures
        match placement(views(found@)) {
            None => r is None,
            Some(p) => r matches Some(x) && x@ == p,
        },
{
    if found.len() == 0 {
        return None;
    }
    let ghost all = views(found@);
    let mut classes: Vec<(String, u32)> = Vec::new();
    let mut line: u32 = found[0].line;
    classes.push((found[0].class.clone(), found[0].request));
    let mut i: usize = 1;
    let ghost pairs = all.map_values(|f: SetInView| (f.class, f.request));
    assert(class_requests(classes@) =~= pairs.take(1));
    while i < found.len()
        invariant
            1 <= i <= found@.len(),
            all == views(found@),
            pairs == all.map_values(|f: SetInView| (f.class, f.request)),
            line == topmost(all.take(i as int)),
            class_requests(classes@) == pairs.take(i as int),
        decreases found@.len() - i,
    {
        let ghost before = class_requests(classes@);
        assert(all.take(i + 1).drop_last() =~= all.take(i as int));
        assert(all.take(i + 1).last() == found@[i as int]@);
        if found[i].line < line {
            line = found[i].line;
        }
        let pair = (found[i].class.clone(), found[i].request);
        classes.push(pair);
        assert(class_requests(classes@) =~= before.push((pair.0@, pair.1)));
        i += 1;
        assert(class_requests(classes@) =~= pairs.take(i as int));
    }
    assert(all.take(i as int) =~= all);
    assert(pairs.take(i as int) =~= pairs);
    Some(Placement { line, classes })
}

impl Installer {
    pub fn new(class_names: Vec<String>, targets: Vec<Target>) -> (r: Installer)
        ensures
            r@ == InstallerView::new(texts(class_names@), targets@),
            r@.inv(),
    {
        let ghost names = texts(class_names@);
        let mut results: Vec<Option<Placement>> = Vec::new();
        if class_names.len() == 0 {
            let mut i: usize = 0;
            while i < targets.len()
                invariant
                    i <= targets@.len(),
                    outcomes(results@) == Seq::new(i as nat, |i: int| None::<PlacementView>),
                decreases targets@.len() - i,
            {
                let ghost before = outcomes(results@);
                results.push(None);
                assert(outcomes(results@) =~= before.push(None));
                i += 1;
                assert(outcomes(results@) =~= Seq::new(i as nat, |i: int| None::<PlacementView>));
            }
        }
        let r = Installer {
            class_names,
            targets,
            results,
            loaded: None,
            at: 0,
            collector: LineCollector::new(0, 0),
            placing: None,
            found: Vec::new(),
        };
        assert(names.len() == class_names@.len());
        assert(r@ =~= InstallerView::new(names, targets@));
        r
    }

    /// What to ask the JVM next; nothing where all breakpoints have been dealt with.
    pub fn next(&self) -> (r: Option<Command>)
        ensures
            match self@.asks() {
                None => r is None,
                Some(c) => r matches Some(x) && x@ == c,
            },
    {
        if self.results.len() >= self.targets.len() {
            return None;
        }
        match &self.loaded {
            None => Some(JdwpClient::vm_all_classes()),
            Some(_) => match &self.placing {
                Some(place) => Some(JdwpClient::event_request_set_breakpoint(&place.1)),
                None => self.collector.next(),
            },
        }
    }

    fn finish(&mut self)
        requires
            !old(self)@.is_done(),
        ensures
            final(self)@ == old(self)@.finished(),
    {
        let ghost before = self@;
        let result = place(&self.found);
        let ghost results = self.results@;
        self.results.push(result);
        assert(outcomes(self.results@) =~= outcomes(results).push(placement(before.found)));
        self.loaded = None;
        self.at = 0;
        self.placing = None;
        self.found = Vec::new();
        assert(self@ =~= before.finished());
    }

    fn go_to_class(&mut self, at: usize)
        requires
            !old(self)@.is_done(),
        ensures
            final(self)@ == old(self)@.at_class(at as nat),
    {
        let ghost before = self@;
        let collector = match &self.loaded {
            Some(l) => if at < l.len() {
                Some(LineCollector::new(l[at].ref_type_tag, l[at].ref_type_id))
            } else {
                None
            },
            None => None,
        };
        match collector {
            Some(c) => {
                self.at = at;
                self.collector = c;
                self.placing = None;
                assert(self@ =~= before.at_class(at as nat));
            },
            None => {
                self.finish();
            },
        }
    }

    /// Takes what the JVM answered.
    pub fn supply(&mut self, reply: &Reply)
        requires
            old(self)@.inv(),
        ensures
            final(self)@ == old(self)@.told(reply_view(*reply)),
            final(self)@.inv(),
    {
        let ghost before = self@;
        proof {
            law_installer_keeps_near(before, reply_view(*reply));
        }
        if self.results.len() >= self.targets.len() {
            return;
        }
        let line = self.targets[self.results.len()].line;
        let class: Option<String> = match &self.loaded {
            None => None,
            Some(l) => Some(l[self.at].name.clone()),
        };
        match class {
            None => {
                let classes = read_classes(reply);
                let loaded = loaded_among(classes.as_slice(), self.class_names.as_slice());
                self.loaded = Some(loaded);
                assert(self@ =~= (InstallerView {
                    loaded: Some(among(classes_in(reply_view(*reply)), before.class_names)),
                    ..before
                }));
                self.go_to_class(0);
            },
            Some(class) => {
                let at: usize = self.at;
                let loaded_len: usize = match &self.loaded {
                    Some(l) => l.len(),
                    None => 0,
                };
                assert(at < loaded_len);
                match self.placing {
                    Some((placed_line, _)) => {
                        if let Some(request) = read_request(reply) {
                            let ghost found = views(self.found@);
                            let set = SetIn { class, line: placed_line, request };
                            self.found.push(set);
                            assert(views(self.found@) =~= found.push(set@));
                        }
                        self.go_to_class(at + 1);
                    },
                    None => {
                        self.collector.supply(reply);
                        if self.collector.next().is_none() {
                            match nearest_line(self.collector.lines.as_slice(), line) {
                                Some(place) => {
                                    self.placing = Some(place);
                                },
                                None => {
                                    self.go_to_class(at + 1);
                                },
                            }
                        }
                    },
                }
            },
        }
    }
}

// ---------------------------------------------------------------------------
// A class that is being loaded
// ---------------------------------------------------------------------------

/// A breakpoint that goes into the class.
#[derive(Debug, Clone, Copy, PartialEq, Eq, Structural)]
pub struct Planned {
    pub id: u32,
    pub line: u32,
    pub location: Location,
    /// Whether the breakpoint has not been set in any class yet.
    pub first: bool,
}

/// The breakpoints that have a line near enough in the class, and where they go.
pub open spec fn planned(targets: Seq<Target>, lines: Seq<(u32, Location)>, first: bool) -> Seq<
    Planned,
>
    decreases targets.len(),
{
    if targets.len() == 0 {
        seq![]
    } else {
        match nearest(lines, targets.last().line) {
            Some((line, location)) => planned(targets.drop_last(), lines, first).push(
                Planned { id: targets.last().id, line, location, first },
            ),
            None => planned(targets.drop_last(), lines, first),
        }
    }
}

/// Sets breakpoints in a class that is being loaded: its lines are asked for, and then each
/// breakpoint that has one near enough is set, first those that are not set anywhere yet.
pub struct Preparation {
    pub class: String,
    pub pending: Vec<Target>,
    pub extendable: Vec<Target>,
    pub collector: LineCollector,
    /// What is to be set, once the lines are known.
    pub plan: Option<Vec<Planned>>,
    /// The requests by which the first of them were set; none for one that was refused.
    pub requests: Vec<Option<u32>>,
}

#[verifier::ext_equal]
pub struct PreparationView {
    pub class: Seq<char>,
    pub pending: Seq<Target>,
    pub extendable: Seq<Target>,
    pub collector: LineCollectorView,
    pub plan: Option<Seq<Planned>>,
    pub requests: Seq<Option<u32>>,
}

impl View for Preparation {
    type V = PreparationView;

    open spec fn view(&self) -> PreparationView {
        PreparationView {
            class: self.class@,
            pending: self.pending@,
            extendable: self.extendable@,
            collector: self.collector@,
            plan: match self.plan {
                None => None,
                Some(p) => Some(p@),
            },
            requests: self.requests@,
        }
    }
}

impl PreparationView {
    pub open spec fn new(
        class: Seq<char>,
        ref_type_tag: u8,
        ref_type_id: u64,
        pending: Seq<Target>,
        extendable: Seq<Target>,
    ) -> PreparationView {
        PreparationView {
            class,
            pending,
            extendable,
            collector: LineCollectorView::new(ref_type_tag, ref_type_id),
            plan: None,
            requests: seq![],
        }
    }

    pub open spec fn asks(self) -> Option<CommandView> {
        match self.plan {
            None => self.collector.asks(),
            Some(p) => if self.requests.len() < p.len() {
                Some(breakpoint_request(p[self.requests.len() as int].location))
            } else {
                None
            },
        }
    }

    /// One before it is known what is to be set, then zero.
    pub open spec fn plan_unknown(self) -> nat {
        if self.plan is None {
            1
        } else {
            0
        }
    }

    /// How many of those that are to be set have not been.
    pub open spec fn plan_left(self) -> nat {
        match self.plan {
            None => 0,
            Some(p) => if self.requests.len() < p.len() {
                (p.len() - self.requests.len()) as nat
            } else {
                0
            },
        }
    }

    /// What always holds: there is something to ask until it is known what is to be set, and no
    /// more has been set than that.
    pub open spec fn inv(self) -> bool {
        match self.plan {
            None => self.collector.asks() is Some && self.requests.len() == 0,
            Some(p) => self.requests.len() <= p.len(),
        }
    }

    pub open spec fn told(self, reply: Result<Seq<u8>, JdwpError>) -> PreparationView {
        match self.plan {
            None => {
                let collector = self.collector.told(reply);
                PreparationView {
                    collector,
                    plan: if collector.asks() is None {
                        Some(
                            planned(self.pending, collector.lines, true) + planned(
                                self.extendable,
                                collector.lines,
                                false,
                            ),
                        )
                    } else {
                        None
                    },
                    ..self
                }
            },
            Some(p) => if self.requests.len() < p.len() {
                PreparationView { requests: self.requests.push(request_in(reply)), ..self }
            } else {
                self
            },
        }
    }
}

/// Each answer brings the preparation nearer to its end, so that its questions come to one.
pub proof fn law_preparation_comes_to_an_end(v: PreparationView, reply: Result<Seq<u8>, JdwpError>)
    requires
        v.inv(),
        v.asks() is Some,
    ensures
        v.told(reply).inv(),
        decreases_to!(
            v.plan_unknown(),
            v.collector.methods_unknown(),
            v.collector.methods_left(),
            v.plan_left() =>
            v.told(reply).plan_unknown(),
            v.told(reply).collector.methods_unknown(),
            v.told(reply).collector.methods_left(),
            v.told(reply).plan_left()
        ),
{
    if v.plan is None {
        law_collector_comes_to_an_end(v.collector, reply);
    }
}

fn push_planned(targets: &[Target], lines: &[(u32, Location)], first: bool, out: &mut Vec<Planned>)
    ensures
        final(out)@ == old(out)@ + planned(targets@, lines@, first),
{
    let ghost before = out@;
    let mut i: usize = 0;
    assert(targets@.take(0) =~= seq![]);
    assert(out@ =~= before + seq![]);
    while i < targets.len()
        invariant
            i <= targets@.len(),
            out@ == before + planned(targets@.take(i as int), lines@, first),
        decreases targets@.len() - i,
    {
        assert(targets@.take(i + 1).drop_last() =~= targets@.take(i as int));
        assert(targets@.take(i + 1).last() == targets@[i as int]);
        if let Some((line, location)) = nearest_line(lines, targets[i].line) {
            out.push(Planned { id: targets[i].id, line, location, first });
        }
        i += 1;
        assert(out@ =~= before + planned(targets@.take(i as int), lines@, first));
    }
    assert(targets@.take(i as int) =~= targets@);
}

impl Preparation {
    pub fn new(
        class: String,
        ref_type_tag: u8,
        ref_type_id: u64,
        pending: Vec<Target>,
        extendable: Vec<Target>,
    ) -> (p: Preparation)
        ensures
            p@ == PreparationView::new(
                class@,
                ref_type_tag,
                ref_type_id,
                pending@,
                extendable@,
            ),
            p@.inv(),
    {
        let p = Preparation {
            class,
            pending,
            extendable,
            collector: LineCollector::new(ref_type_tag, ref_type_id),
            plan: None,
            requests: Vec::new(),
        };
        assert(p@ =~= PreparationView::new(
            class@,
            ref_type_tag,
            ref_type_id,
            pending@,
            extendable@,
        ));
        p
    }

    pub fn next(&self) -> (r: Option<Command>)
        ensures
            match self@.asks() {
                None => r is None,
                Some(c) => r matches Some(x) && x@ == c,
            },
    {
        match &self.plan {
            None => self.collector.next(),
            Some(p) => if self.requests.len() < p.len() {
                Some(
                    JdwpClient::event_request_set_breakpoint(&p[self.requests.len()].location),
                )
            } else {
                None
            },
        }
    }

    pub fn supply(&mut self, reply: &Reply)
        requires
            old(self)@.inv(),
        ensures
            final(self)@ == old(self)@.told(reply_view(*reply)),
            final(self)@.inv(),
    {
        let ghost before = self@;
        let planned_len: Option<usize> = match &self.plan {
            None => None,
            Some(p) => Some(p.len()),
        };
        match planned_len {
            None => {
                self.collector.supply(reply);
                if self.collector.next().is_none() {
                    let mut plan: Vec<Planned> = Vec::new();
                    let lines = self.collector.lines.as_slice();
                    push_planned(self.pending.as_slice(), lines, true, &mut plan);
                    push_planned(self.extendable.as_slice(), lines, false, &mut plan);
                    assert(plan@ =~= before.told(reply_view(*reply)).plan->0);
                    self.plan = Some(plan);
                }
            },
            Some(n) => {
                if self.requests.len() < n {
                    self.requests.push(read_request(reply));
                }
            },
        }
        assert(self@ =~= before.told(reply_view(*reply)));
    }
}

} // verus!
