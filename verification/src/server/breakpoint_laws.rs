//! What holds of setting breakpoints.

use vstd::prelude::*;
use crate::jdwp::client::{location_bytes, CommandView};
use crate::jdwp::encode::{
    class_bytes, is_writable, law_classes_read_back, law_line_table_reads_back,
    law_methods_read_back, law_numbers_read_back, line_bytes, list_bytes, method_bytes, stands_at,
};
use crate::jdwp::read::JdwpError;
use crate::jdwp::{ClassInfoView, LineTableEntry, LineTableView, Location, MethodInfoView};
use crate::server::binary_name;
use crate::server::breakpoints::{
    law_only_the_breakpoint_with_the_number_changes, BpStateView, BreakpointView, Target,
};
use crate::server::events::{extended, news, settled, state_for};
use crate::server::installer::{
    among, law_reported_line_is_topmost, placement, planned, topmost, InstallerView,
    LoadedClassView, PlacementView, Planned, PreparationView, SetInView,
};
use crate::server::lines::{law_nearest_is_nearest, nearest, LineCollectorView};
use crate::wire::be_bytes;

verus! {

// ---------------------------------------------------------------------------
// Where a breakpoint goes
// ---------------------------------------------------------------------------

/// A breakpoint goes to a line at or at most two below the one that was asked for: to the nearest
/// such line, and of several places with that line to the first. Where there is no such line, it
/// goes nowhere.
pub proof fn law_breakpoints_go_at_most_two_lines_down(
    lines: Seq<(u32, Location)>,
    requested: u32,
    i: int,
)
    ensures
        0 <= i < lines.len() && requested <= lines[i].0 <= requested + 2 && (forall|j: int|
            0 <= j < lines.len() && requested <= (#[trigger] lines[j]).0 <= requested + 2
                ==> lines[i].0 < lines[j].0 || lines[i].0 == lines[j].0 && i <= j) ==> nearest(
            lines,
            requested,
        ) == Some(lines[i]),
        (forall|j: int|
            0 <= j < lines.len() ==> !(requested <= (#[trigger] lines[j]).0 <= requested + 2))
            ==> nearest(lines, requested) is None,
    decreases lines.len(),
{
    law_nearest_is_nearest(lines, requested);
    if lines.len() > 0 {
        let less = lines.drop_last();
        let n = lines.len() - 1;
        assert(lines[n] == lines.last());
        law_nearest_is_nearest(less, requested);
        if 0 <= i < lines.len() && requested <= lines[i].0 <= requested + 2 && (forall|j: int|
            0 <= j < lines.len() && requested <= (#[trigger] lines[j]).0 <= requested + 2
                ==> lines[i].0 < lines[j].0 || lines[i].0 == lines[j].0 && i <= j) {
            if i < n {
                assert forall|j: int|
                    0 <= j < less.len() && requested <= (#[trigger] less[j]).0 <= requested
                        + 2 implies less[i].0 < less[j].0 || less[i].0 == less[j].0 && i <= j by {
                    assert(less[j] == lines[j]);
                }
                law_breakpoints_go_at_most_two_lines_down(less, requested, i);
                assert(less[i] == lines[i]);
            } else if let Some(f) = nearest(less, requested) {
                let k = choose|k: int| 0 <= k < less.len() && less[k] == f;
                assert(lines[k] == f);
            }
        }
    }
}

/// The lines of a class are asked for by the class: first its methods, then each method in turn.
pub proof fn law_lines_are_asked_for(c: LineCollectorView)
    ensures
        c.methods is None ==> c.asks() == Some(
            CommandView { set: 2, cmd: 15, data: be_bytes(c.ref_type_id as nat, 8) },
        ),
        c.methods is Some && c.asked < c.methods->0.len() ==> c.asks() == Some(
            CommandView {
                set: 6,
                cmd: 1,
                data: be_bytes(c.ref_type_id as nat, 8) + be_bytes(
                    c.methods->0[c.asked as int] as nat,
                    8,
                ),
            },
        ),
        c.methods is Some && c.asked >= c.methods->0.len() ==> c.asks() is None,
{
}

/// All methods of a class are gone through, and all lines of each are taken in, each with the
/// place where its code starts. A method whose lines cannot be had adds none.
pub proof fn law_all_lines_of_a_class_are_found(
    c: LineCollectorView,
    d: Seq<u8>,
    methods: Seq<MethodInfoView>,
    generic: Seq<char>,
    table: LineTableView,
    why: JdwpError,
)
    requires
        methods.len() < 0x1_0000_0000 && table.lines.len() < 0x1_0000_0000,
        is_writable(generic),
        forall|i: int|
            0 <= i < methods.len() ==> is_writable((#[trigger] methods[i]).name) && is_writable(
                methods[i].signature,
            ),
    ensures
        c.methods is None && stands_at(
            d,
            0,
            list_bytes(methods.map_values(|m: MethodInfoView| method_bytes(m, generic))),
        ) ==> c.told(Ok(d)) == (LineCollectorView {
            methods: Some(Seq::new(methods.len(), |i: int| methods[i].method_id)),
            ..c
        }),
        c.methods is Some && c.asked < c.methods->0.len() && stands_at(
            d,
            0,
            be_bytes(table.start as nat, 8) + be_bytes(table.end as nat, 8) + list_bytes(
                table.lines.map_values(|e: LineTableEntry| line_bytes(e)),
            ),
        ) ==> c.told(Ok(d)) == (LineCollectorView {
            lines: c.lines + Seq::new(
                table.lines.len(),
                |i: int|
                    (
                        table.lines[i].line_number,
                        Location {
                            type_tag: c.ref_type_tag,
                            class_id: c.ref_type_id,
                            method_id: c.methods->0[c.asked as int],
                            index: table.lines[i].line_code_index,
                        },
                    ),
            ),
            asked: c.asked + 1,
            ..c
        }),
        c.methods is Some && c.asked < c.methods->0.len() ==> c.told(Err(why)) == (
        LineCollectorView { asked: c.asked + 1, ..c }),
{
    if stands_at(
        d,
        0,
        list_bytes(methods.map_values(|m: MethodInfoView| method_bytes(m, generic))),
    ) {
        law_methods_read_back(d, 0, methods, generic);
        assert(crate::server::lines::ids_of(methods) =~= Seq::new(
            methods.len(),
            |i: int| methods[i].method_id,
        ));
    }
    if c.methods is Some && c.asked < c.methods->0.len() {
        let method = c.methods->0[c.asked as int];
        if stands_at(
            d,
            0,
            be_bytes(table.start as nat, 8) + be_bytes(table.end as nat, 8) + list_bytes(
                table.lines.map_values(|e: LineTableEntry| line_bytes(e)),
            ),
        ) {
            law_line_table_reads_back(d, table);
            assert(crate::server::lines::placed(
                c.ref_type_tag,
                c.ref_type_id,
                method,
                table.lines,
            ) =~= Seq::new(
                table.lines.len(),
                |i: int|
                    (
                        table.lines[i].line_number,
                        Location {
                            type_tag: c.ref_type_tag,
                            class_id: c.ref_type_id,
                            method_id: method,
                            index: table.lines[i].line_code_index,
                        },
                    ),
            ));
        }
        assert(c.told(Err(why)).lines =~= c.lines);
    }
}

// ---------------------------------------------------------------------------
// Classes that are loaded
// ---------------------------------------------------------------------------

/// Of the loaded classes, all that have one of the names are taken, in their order, and no others.
pub proof fn law_all_loaded_classes_of_the_names_are_taken(
    classes: Seq<ClassInfoView>,
    names: Seq<Seq<char>>,
)
    ensures
        among(classes, names) == classes.filter(
            |c: ClassInfoView| names.contains(binary_name(c.signature)),
        ).map_values(
            |c: ClassInfoView|
                LoadedClassView {
                    name: binary_name(c.signature),
                    ref_type_tag: c.ref_type_tag,
                    ref_type_id: c.ref_type_id,
                },
        ),
    decreases classes.len(),
{
    reveal(Seq::filter);
    if classes.len() > 0 {
        law_all_loaded_classes_of_the_names_are_taken(classes.drop_last(), names);
    }
    assert(among(classes, names) =~= classes.filter(
        |c: ClassInfoView| names.contains(binary_name(c.signature)),
    ).map_values(
        |c: ClassInfoView|
            LoadedClassView {
                name: binary_name(c.signature),
                ref_type_tag: c.ref_type_tag,
                ref_type_id: c.ref_type_id,
            },
    ));
}

/// What setting a breakpoint came to names every class that it was set in, with its request, and
/// the topmost of the lines; it came to nothing just where it was set nowhere.
pub proof fn law_every_class_that_was_set_counts(found: Seq<SetInView>)
    ensures
        placement(found) is None <==> found.len() == 0,
        placement(found) matches Some(p) ==> {
            &&& p.classes.len() == found.len()
            &&& forall|i: int|
                0 <= i < found.len() ==> #[trigger] p.classes[i] == (
                    found[i].class,
                    found[i].request,
                )
            &&& forall|i: int| 0 <= i < found.len() ==> p.line <= (#[trigger] found[i]).line
            &&& exists|i: int| 0 <= i < found.len() && p.line == (#[trigger] found[i]).line
        },
{
    if found.len() > 0 {
        law_reported_line_is_topmost(found);
        let i = choose|i: int|
            0 <= i < found.len() && (#[trigger] found[i]).line == topmost(found);
        assert(placement(found)->0.line == found[i].line);
    }
}

/// Without classes that were compiled from the source file nothing is asked, and no breakpoint is
/// set. With classes, the loaded ones are asked for, for every breakpoint.
pub proof fn law_installing_starts(names: Seq<Seq<char>>, targets: Seq<Target>)
    ensures
        ({
            let v = InstallerView::new(names, targets);
            &&& v.targets == targets
            &&& v.class_names == names
            &&& names.len() == 0 ==> v.asks() is None && v.results.len() == targets.len()
                && forall|i: int| 0 <= i < targets.len() ==> #[trigger] v.results[i] is None
            &&& names.len() > 0 ==> v.results.len() == 0
            &&& names.len() > 0 && targets.len() > 0 ==> v.asks() == Some(
                CommandView { set: 1, cmd: 20, data: seq![] },
            )
        }),
{
}

/// Where the breakpoint in hand goes from here: to the next of the loaded classes, or, behind the
/// last, to the next breakpoint, with what it came to.
pub open spec fn goes_on(v: InstallerView, w: InstallerView, found: Seq<SetInView>, next: nat) -> bool {
    let l = v.loaded->0;
    &&& w.targets == v.targets
    &&& w.class_names == v.class_names
    &&& if next < l.len() {
        &&& w.loaded == v.loaded
        &&& w.at == next
        &&& w.found == found
        &&& w.results == v.results
        &&& w.placing is None
        &&& w.collector.ref_type_id == l[next as int].ref_type_id
        &&& w.collector.ref_type_tag == l[next as int].ref_type_tag
        &&& w.collector.methods is None && w.collector.lines.len() == 0 && w.collector.asked == 0
    } else {
        &&& w.loaded is None
        &&& w.results == v.results.push(placement(found))
        &&& w.found.len() == 0
        &&& w.placing is None
    }
}

/// The loaded classes that were compiled from the source file are gone through for the breakpoint
/// in hand, from the first on.
pub proof fn law_loaded_classes_are_gone_through(
    v: InstallerView,
    d: Seq<u8>,
    classes: Seq<ClassInfoView>,
    generic: Seq<char>,
)
    requires
        v.inv(),
        !v.is_done(),
        v.loaded is None,
        classes.len() < 0x1_0000_0000,
        is_writable(generic),
        forall|i: int| 0 <= i < classes.len() ==> is_writable((#[trigger] classes[i]).signature),
        stands_at(d, 0, list_bytes(classes.map_values(|c: ClassInfoView| class_bytes(c, generic)))),
    ensures
        goes_on(
            InstallerView {
                loaded: Some(
                    classes.filter(
                        |c: ClassInfoView| v.class_names.contains(binary_name(c.signature)),
                    ).map_values(
                        |c: ClassInfoView|
                            LoadedClassView {
                                name: binary_name(c.signature),
                                ref_type_tag: c.ref_type_tag,
                                ref_type_id: c.ref_type_id,
                            },
                    ),
                ),
                ..v
            },
            v.told(Ok(d)),
            seq![],
            0,
        ),
{
    law_classes_read_back(d, 0, classes, generic);
    law_all_loaded_classes_of_the_names_are_taken(classes, v.class_names);
    assert(v.found =~= seq![]);
}

/// A class whose lines are known gets the breakpoint where a line is near enough: it is asked for
/// at just that place. A class without such a line is passed over.
pub proof fn law_a_class_with_a_near_line_gets_the_breakpoint(
    v: InstallerView,
    reply: Result<Seq<u8>, JdwpError>,
)
    requires
        v.inv(),
        !v.is_done(),
        v.loaded is Some,
        v.placing is None,
        v.collector.told(reply).asks() is None,
    ensures
        ({
            let w = v.told(reply);
            match nearest(
                v.collector.told(reply).lines,
                v.targets[v.results.len() as int].line,
            ) {
                Some(place) => {
                    &&& w.placing == Some(place)
                    &&& w.at == v.at && w.loaded == v.loaded && w.found == v.found && w.results
                        == v.results && w.targets == v.targets
                    &&& w.asks() == Some(
                        CommandView {
                            set: 15,
                            cmd: 1,
                            data: seq![2u8, 2u8, 0u8, 0u8, 0u8, 1u8, 7u8] + location_bytes(place.1),
                        },
                    )
                },
                None => goes_on(v, w, v.found, v.at + 1),
            }
        }),
{
    reveal_with_fuel(be_bytes, 5);
    assert(be_bytes(1, 4) =~= seq![0u8, 0u8, 0u8, 1u8]);
    assert(crate::jdwp::client::request_head(2, 1).push(7) =~= seq![
        2u8,
        2u8,
        0u8,
        0u8,
        0u8,
        1u8,
        7u8,
    ]);
}

/// A place is written as its kind of type, its class, its method and its index.
pub proof fn law_places_are_written(l: Location)
    ensures
        location_bytes(l) == seq![l.type_tag] + be_bytes(l.class_id as nat, 8) + be_bytes(
            l.method_id as nat,
            8,
        ) + be_bytes(l.index as nat, 8),
{
}

/// A class in which the JVM has set the breakpoint counts, with the number of the request; one
/// where the JVM has refused it does not. Either way the next class follows.
pub proof fn law_granted_requests_count(v: InstallerView, d: Seq<u8>, request: u32, why: JdwpError)
    requires
        v.inv(),
        !v.is_done(),
        v.loaded is Some,
        v.placing is Some,
        stands_at(d, 0, be_bytes(request as nat, 4)),
    ensures
        goes_on(
            v,
            v.told(Ok(d)),
            v.found.push(
                SetInView {
                    class: v.loaded->0[v.at as int].name,
                    line: (v.placing->0).0,
                    request,
                },
            ),
            v.at + 1,
        ),
        goes_on(v, v.told(Err(why)), v.found, v.at + 1),
{
    law_numbers_read_back(d, 0, request as nat);
}

/// Each breakpoint that was asked for is, once all are dealt with, as setting it came out: set in
/// the classes and at the line that it came to; or waiting, where there are classes that may still
/// be loaded; or refused, where there are none. All other breakpoints stay as they are.
pub proof fn law_every_breakpoint_is_settled(
    all: Seq<BreakpointView>,
    targets: Seq<Target>,
    results: Seq<Option<PlacementView>>,
    has_classes: bool,
    n: nat,
    j: int,
)
    requires
        n <= targets.len() == results.len(),
        forall|a: int, b: int|
            0 <= a < b < targets.len() ==> (#[trigger] targets[a]).id != (#[trigger] targets[b]).id,
        forall|a: int, b: int|
            0 <= a < b < all.len() ==> (#[trigger] all[a]).id != (#[trigger] all[b]).id,
        0 <= j < all.len(),
    ensures
        ({
            let now = settled(all, targets, results, has_classes, n);
            &&& now.len() == all.len()
            &&& now[j].id == all[j].id && now[j].source_path == all[j].source_path
                && now[j].requested_line == all[j].requested_line
            &&& forall|k: int|
                0 <= k < n && (#[trigger] targets[k]).id == all[j].id ==> now[j].state
                    == match results[k] {
                    Some(p) => BpStateView::Installed { classes: p.classes, installed_line: p.line },
                    None => if has_classes {
                        BpStateView::Pending
                    } else {
                        BpStateView::Rejected
                    },
                }
            &&& (forall|k: int| 0 <= k < n ==> (#[trigger] targets[k]).id != all[j].id)
                ==> now[j].state == all[j].state
        }),
    decreases n,
{
    if n > 0 {
        let m = (n - 1) as nat;
        let before = settled(all, targets, results, has_classes, m);
        assert forall|i: int| 0 <= i < all.len() implies before.len() == all.len() && (
        #[trigger] before[i]).id == all[i].id by {
            law_every_breakpoint_is_settled(all, targets, results, has_classes, m, i);
        }
        law_every_breakpoint_is_settled(all, targets, results, has_classes, m, j);
        law_only_the_breakpoint_with_the_number_changes(
            before,
            targets[m as int].id,
            state_for(results[m as int], has_classes),
            seq![],
            0,
        );
        assert(before[j].id == all[j].id);
        if targets[m as int].id == all[j].id {
            assert forall|i: int| 0 <= i < j implies (#[trigger] before[i]).id
                != targets[m as int].id by {
                assert(all[i].id != all[j].id);
            }
        }
        assert forall|k: int| 0 <= k < n && k != m && (#[trigger] targets[k]).id
            == all[j].id implies targets[m as int].id != all[j].id by {}
    }
}

// ---------------------------------------------------------------------------
// A class that is being loaded
// ---------------------------------------------------------------------------

/// Every breakpoint that has a line near enough in the class is to be set there, in order, at the
/// place of that line; and no other.
pub proof fn law_every_breakpoint_with_a_near_line_is_planned(
    targets: Seq<Target>,
    lines: Seq<(u32, Location)>,
    first: bool,
)
    ensures
        planned(targets, lines, first) == targets.filter(
            |t: Target| nearest(lines, t.line) is Some,
        ).map_values(
            |t: Target|
                Planned {
                    id: t.id,
                    line: (nearest(lines, t.line)->0).0,
                    location: (nearest(lines, t.line)->0).1,
                    first,
                },
        ),
    decreases targets.len(),
{
    reveal(Seq::filter);
    if targets.len() > 0 {
        law_every_breakpoint_with_a_near_line_is_planned(targets.drop_last(), lines, first);
    }
    assert(planned(targets, lines, first) =~= targets.filter(
        |t: Target| nearest(lines, t.line) is Some,
    ).map_values(
        |t: Target|
            Planned {
                id: t.id,
                line: (nearest(lines, t.line)->0).0,
                location: (nearest(lines, t.line)->0).1,
                first,
            },
    ));
}

/// Once the lines of the class are known, the breakpoints that wait are to be set, and then those
/// that are set elsewhere; each is asked for at its place, and each answer is kept: the number of
/// the request, or that there is none.
pub proof fn law_planned_breakpoints_are_asked_for(
    v: PreparationView,
    reply: Result<Seq<u8>, JdwpError>,
    d: Seq<u8>,
    request: u32,
    why: JdwpError,
)
    requires
        v.inv(),
        stands_at(d, 0, be_bytes(request as nat, 4)),
    ensures
        v.plan is None && v.collector.told(reply).asks() is None ==> v.told(reply).plan == Some(
            planned(v.pending, v.collector.told(reply).lines, true) + planned(
                v.extendable,
                v.collector.told(reply).lines,
                false,
            ),
        ) && v.told(reply).requests.len() == 0,
        v.plan is None && v.collector.told(reply).asks() is Some ==> v.told(reply).plan is None
            && v.told(reply).asks() == v.collector.told(reply).asks(),
        v.plan matches Some(p) ==> v.requests.len() < p.len() ==> v.asks() == Some(
            CommandView {
                set: 15,
                cmd: 1,
                data: seq![2u8, 2u8, 0u8, 0u8, 0u8, 1u8, 7u8] + location_bytes(
                    p[v.requests.len() as int].location,
                ),
            },
        ) && v.told(Ok(d)).requests == v.requests.push(Some(request)) && v.told(Err(why)).requests
            == v.requests.push(None) && v.told(Ok(d)).plan == v.plan,
        v.told(reply).class == v.class,
        v.told(reply).pending == v.pending,
        v.told(reply).extendable == v.extendable,
{
    law_numbers_read_back(d, 0, request as nat);
    reveal_with_fuel(be_bytes, 5);
    assert(be_bytes(1, 4) =~= seq![0u8, 0u8, 0u8, 1u8]);
    assert(crate::jdwp::client::request_head(2, 1).push(7) =~= seq![
        2u8,
        2u8,
        0u8,
        0u8,
        0u8,
        1u8,
        7u8,
    ]);
}

/// A breakpoint that was set in other classes, and that the JVM has now set in the class too, is
/// set in all of these, at the same line; one that is not planned, or that the JVM has refused,
/// stays as it is. No breakpoint is lost, and none changes its number, its file or its line.
pub proof fn law_a_set_breakpoint_takes_in_the_class(
    all: Seq<BreakpointView>,
    plan: Seq<Planned>,
    requests: Seq<Option<u32>>,
    class: Seq<char>,
    first: bool,
    n: nat,
    j: int,
)
    requires
        n <= plan.len() == requests.len(),
        forall|a: int, b: int|
            0 <= a < b < plan.len() ==> (#[trigger] plan[a]).id != (#[trigger] plan[b]).id,
        forall|a: int, b: int|
            0 <= a < b < all.len() ==> (#[trigger] all[a]).id != (#[trigger] all[b]).id,
        0 <= j < all.len(),
    ensures
        ({
            let now = extended(all, plan, requests, class, first, n);
            &&& now.len() == all.len()
            &&& now[j].id == all[j].id && now[j].source_path == all[j].source_path
                && now[j].requested_line == all[j].requested_line
            &&& forall|k: int|
                0 <= k < n && (#[trigger] plan[k]).id == all[j].id && plan[k].first == first
                    && requests[k] is Some ==> now[j].state == if first {
                    BpStateView::Installed {
                        classes: seq![(class, requests[k]->0)],
                        installed_line: plan[k].line,
                    }
                } else {
                    match all[j].state {
                        BpStateView::Installed { classes, installed_line } => {
                            BpStateView::Installed {
                                classes: classes.push((class, requests[k]->0)),
                                installed_line,
                            }
                        },
                        _ => all[j].state,
                    }
                }
            &&& (forall|k: int|
                0 <= k < n && (#[trigger] plan[k]).id == all[j].id ==> plan[k].first != first
                    || requests[k] is None) ==> now[j].state == all[j].state
        }),
    decreases n,
{
    if n > 0 {
        let m = (n - 1) as nat;
        let before = extended(all, plan, requests, class, first, m);
        assert forall|i: int| 0 <= i < all.len() implies before.len() == all.len() && (
        #[trigger] before[i]).id == all[i].id by {
            law_a_set_breakpoint_takes_in_the_class(all, plan, requests, class, first, m, i);
        }
        law_a_set_breakpoint_takes_in_the_class(all, plan, requests, class, first, m, j);
        let p = plan[m as int];
        law_only_the_breakpoint_with_the_number_changes(
            before,
            p.id,
            BpStateView::Installed {
                classes: seq![(class, requests[m as int]->0)],
                installed_line: p.line,
            },
            class,
            requests[m as int]->0,
        );
        assert(before[j].id == all[j].id);
        if p.id == all[j].id {
            assert forall|i: int| 0 <= i < j implies (#[trigger] before[i]).id != p.id by {
                assert(all[i].id != all[j].id);
            }
            assert forall|k: int| 0 <= k < m implies (#[trigger] plan[k]).id != all[j].id by {
                assert(plan[k].id != plan[m as int].id);
            }
            assert(before[j].state == all[j].state);
        }
    }
}

/// The editor is told of all breakpoints that are now set and were not before, in their order, each
/// once, and of no others.
pub proof fn law_news_are_told_once(plan: Seq<Planned>, requests: Seq<Option<u32>>, seq: u64, n: nat)
    requires
        n <= plan.len() == requests.len(),
        seq + n <= u64::MAX,
    ensures
        ({
            let set = Seq::new(n, |i: int| i).filter(|i: int| requests[i] is Some && plan[i].first);
            let (told, last) = news(plan, requests, seq, n);
            &&& told.len() == set.len()
            &&& last == seq + set.len()
            &&& set.len() <= n
            &&& forall|k: int|
                0 <= k < set.len() ==> #[trigger] told[k]
                    == crate::server::messages::event_json(
                    (seq + k + 1) as u64,
                    "breakpoint"@,
                    Some(
                        crate::server::messages::breakpoint_changed_json(
                            plan[set[k]].id,
                            plan[set[k]].line,
                        ),
                    ),
                )
        }),
    decreases n,
{
    reveal(Seq::filter);
    let wanted = |i: int| requests[i] is Some && plan[i].first;
    let all = Seq::new(n, |i: int| i);
    if n > 0 {
        let m = (n - 1) as nat;
        law_news_are_told_once(plan, requests, seq, m);
        assert(all.drop_last() =~= Seq::new(m, |i: int| i));
        assert(all.last() == m);
        let before = all.drop_last().filter(wanted);
        let set = all.filter(wanted);
        let told = news(plan, requests, seq, n).0;
        let old_told = news(plan, requests, seq, m).0;
        assert forall|k: int| 0 <= k < set.len() implies #[trigger] told[k]
            == crate::server::messages::event_json(
            (seq + k + 1) as u64,
            "breakpoint"@,
            Some(
                crate::server::messages::breakpoint_changed_json(plan[set[k]].id, plan[set[k]].line),
            ),
        ) by {
            if k < before.len() {
                assert(told[k] == old_told[k]);
                assert(set[k] == before[k]);
            }
        }
    } else {
        assert(all =~= seq![]);
    }
}

} // verus!
