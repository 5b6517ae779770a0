//! The breakpoints of a session.

use vstd::prelude::*;
use crate::list::views;
use crate::path::{is_same_path, same_path};
use crate::text::owned;

verus! {

/// What has become of a breakpoint.
#[derive(Debug, PartialEq, Eq)]
pub enum BpState {
    /// No class that has the line is loaded; it is set as soon as one is.
    Pending,
    /// It is set in the given classes, each with the number of the request.
    Installed { classes: Vec<(String, u32)>, installed_line: u32 },
    /// No class was compiled from the source file.
    Rejected,
}

pub enum BpStateView {
    Pending,
    Installed { classes: Seq<(Seq<char>, u32)>, installed_line: u32 },
    Rejected,
}

pub open spec fn class_requests(v: Seq<(String, u32)>) -> Seq<(Seq<char>, u32)> {
    v.map_values(|c: (String, u32)| (c.0@, c.1))
}

impl View for BpState {
    type V = BpStateView;

    open spec fn view(&self) -> BpStateView {
        match *self {
            BpState::Pending => BpStateView::Pending,
            BpState::Installed { classes, installed_line } => BpStateView::Installed {
                classes: class_requests(classes@),
                installed_line,
            },
            BpState::Rejected => BpStateView::Rejected,
        }
    }
}

/// A breakpoint that the editor has asked for.
#[derive(Debug, PartialEq, Eq)]
pub struct BreakpointEntry {
    /// The number by which the editor knows it.
    pub id: u32,
    pub source_path: String,
    pub requested_line: u32,
    pub state: BpState,
}

pub struct BreakpointView {
    pub id: u32,
    pub source_path: Seq<char>,
    pub requested_line: u32,
    pub state: BpStateView,
}

impl View for BreakpointEntry {
    type V = BreakpointView;

    open spec fn view(&self) -> BreakpointView {
        BreakpointView {
            id: self.id,
            source_path: self.source_path@,
            requested_line: self.requested_line,
            state: self.state@,
        }
    }
}

/// A breakpoint to be set, by its number and the line that is asked for.
#[derive(Debug, Clone, Copy, PartialEq, Eq, Structural)]
pub struct Target {
    pub id: u32,
    pub line: u32,
}

// ---------------------------------------------------------------------------
// The breakpoints of a source file
// ---------------------------------------------------------------------------

/// The breakpoints of other source files.
pub open spec fn elsewhere(all: Seq<BreakpointView>, source: Seq<char>) -> Seq<BreakpointView>
    decreases all.len(),
{
    if all.len() == 0 {
        seq![]
    } else if same_path(all.last().source_path, source) {
        elsewhere(all.drop_last(), source)
    } else {
        elsewhere(all.drop_last(), source).push(all.last())
    }
}

/// The numbers of the requests that a breakpoint is set by.
pub open spec fn requests_of(b: BreakpointView) -> Seq<u32> {
    match b.state {
        BpStateView::Installed { classes, .. } => classes.map_values(|c: (Seq<char>, u32)| c.1),
        _ => seq![],
    }
}

/// The requests by which the breakpoints of a source file are set.
pub open spec fn requests_at(all: Seq<BreakpointView>, source: Seq<char>) -> Seq<u32>
    decreases all.len(),
{
    if all.len() == 0 {
        seq![]
    } else if same_path(all.last().source_path, source) {
        requests_at(all.drop_last(), source) + requests_of(all.last())
    } else {
        requests_at(all.drop_last(), source)
    }
}

/// The number that comes `n` after `first`; after the last number comes zero.
pub open spec fn numbered(first: u32, n: int) -> u32 {
    ((first + n) % 0x1_0000_0000) as u32
}

/// The lines, each with a new number.
pub open spec fn targets_for(lines: Seq<u32>, first: u32) -> Seq<Target> {
    Seq::new(lines.len(), |i: int| Target { id: numbered(first, i), line: lines[i] })
}

/// Breakpoints at the targets, none of them set yet.
pub open spec fn pending_at(source: Seq<char>, targets: Seq<Target>) -> Seq<BreakpointView> {
    targets.map_values(
        |t: Target|
            BreakpointView {
                id: t.id,
                source_path: source,
                requested_line: t.line,
                state: BpStateView::Pending,
            },
    )
}

/// Only the breakpoints of the source file are replaced: those of other files stay as they are,
/// and in their order.
pub proof fn law_other_sources_keep_their_breakpoints(
    all: Seq<BreakpointView>,
    source: Seq<char>,
    b: BreakpointView,
)
    ensures
        elsewhere(all, source).contains(b) <==> all.contains(b) && !same_path(
            b.source_path,
            source,
        ),
    decreases all.len(),
{
    if all.len() > 0 {
        let less = all.drop_last();
        law_other_sources_keep_their_breakpoints(less, source, b);
        let kept = elsewhere(all, source);
        if all.contains(b) && !same_path(b.source_path, source) {
            let i = choose|i: int| 0 <= i < all.len() && all[i] == b;
            if i == all.len() - 1 {
                assert(kept[kept.len() - 1] == b);
            } else {
                assert(less[i] == b);
                let k = choose|k: int|
                    0 <= k < elsewhere(less, source).len() && elsewhere(less, source)[k] == b;
                assert(kept[k] == b);
            }
        }
        if kept.contains(b) {
            let k = choose|k: int| 0 <= k < kept.len() && kept[k] == b;
            if k < elsewhere(less, source).len() {
                assert(elsewhere(less, source)[k] == b);
                let i = choose|i: int| 0 <= i < less.len() && less[i] == b;
                assert(all[i] == b);
            } else {
                assert(all[all.len() - 1] == b);
            }
        }
    }
}

/// The numbers of new breakpoints differ from each other, and from all numbers given before,
/// as long as there are numbers left.
pub proof fn law_new_numbers_are_unused(lines: Seq<u32>, first: u32, used: u32)
    requires
        used < first,
        first + lines.len() <= 0x1_0000_0000,
    ensures
        forall|i: int|
            0 <= i < lines.len() ==> (#[trigger] targets_for(lines, first)[i]).id > used,
        forall|i: int, j: int|
            0 <= i < j < lines.len() ==> (#[trigger] targets_for(lines, first)[i]).id < (
            #[trigger] targets_for(lines, first)[j]).id,
{
}

/// Takes the breakpoints of a source file out, and gives the requests that they were set by.
pub fn take_out(all: &mut Vec<BreakpointEntry>, source: &str) -> (requests: Vec<u32>)
    ensures
        views(final(all)@) == elsewhere(views(old(all)@), source@),
        requests@ == requests_at(views(old(all)@), source@),
{
    let ghost before = views(all@);
    let mut requests: Vec<u32> = Vec::new();
    let mut i: usize = 0;
    let ghost mut seen: int = 0;
    assert(before.take(0) =~= seq![]);
    assert(views(all@) =~= elsewhere(before.take(0), source@) + before.skip(0));
    while i < all.len()
        invariant
            0 <= seen <= before.len(),
            i == elsewhere(before.take(seen), source@).len(),
            views(all@) == elsewhere(before.take(seen), source@) + before.skip(seen),
            requests@ == requests_at(before.take(seen), source@),
        decreases before.len() - seen,
    {
        let ghost kept = elsewhere(before.take(seen), source@);
        proof {
            assert(views(all@).len() == kept.len() + before.len() - seen);
            assert(before.take(seen + 1).drop_last() =~= before.take(seen));
            assert(before.take(seen + 1).last() == before[seen]);
            assert(views(all@)[i as int] == before.skip(seen)[0]);
            assert(before.skip(seen)[0] == before[seen]);
            assert(all@[i as int]@ == before[seen]);
        }
        if is_same_path(all[i].source_path.as_str(), source) {
            let ghost now = all@;
            let entry = all.remove(i);
            assert(entry@ == before[seen]);
            if let BpState::Installed { classes, installed_line } = &entry.state {
                push_requests(classes.as_slice(), &mut requests);
            } else {
                assert(requests@ + seq![] =~= requests@);
            }
            proof {
                assert(views(all@) =~= views(now).remove(i as int));
                assert(views(all@) =~= kept + before.skip(seen + 1));
            }
        } else {
            proof {
                assert(kept.push(before[seen]) + before.skip(seen + 1) =~= kept + before.skip(seen));
            }
            i += 1;
        }
        proof {
            seen = seen + 1;
        }
    }
    proof {
        assert(views(all@).len() == elsewhere(before.take(seen), source@).len() + before.len()
            - seen);
        assert(before.take(seen) =~= before);
        assert(views(all@) =~= elsewhere(before, source@));
    }
    requests
}

fn push_requests(classes: &[(String, u32)], out: &mut Vec<u32>)
    ensures
        final(out)@ == old(out)@ + class_requests(classes@).map_values(
            |c: (Seq<char>, u32)| c.1,
        ),
{
    let ghost want = class_requests(classes@).map_values(|c: (Seq<char>, u32)| c.1);
    let ghost before = out@;
    let mut i: usize = 0;
    assert(out@ =~= before + want.take(0));
    while i < classes.len()
        invariant
            i <= classes@.len() == want.len(),
            want == class_requests(classes@).map_values(|c: (Seq<char>, u32)| c.1),
            out@ == before + want.take(i as int),
        decreases classes@.len() - i,
    {
        out.push(classes[i].1);
        i += 1;
        assert(out@ =~= before + want.take(i as int));
    }
    assert(want.take(i as int) =~= want);
}

/// Adds breakpoints at the given lines, none of them set yet, with numbers from `next` on.
pub fn put_in(all: &mut Vec<BreakpointEntry>, source: &str, lines: &[u32], next: &mut u32) -> (targets:
    Vec<Target>)
    ensures
        targets@ == targets_for(lines@, *old(next)),
        *final(next) == numbered(*old(next), lines@.len() as int),
        views(final(all)@) == views(old(all)@) + pending_at(
            source@,
            targets_for(lines@, *old(next)),
        ),
{
    let ghost first = *next;
    let ghost before = views(all@);
    let ghost want = targets_for(lines@, first);
    let mut targets: Vec<Target> = Vec::new();
    let mut i: usize = 0;
    assert(views(all@) =~= before + pending_at(source@, want.take(0)));
    while i < lines.len()
        invariant
            i <= lines@.len() == want.len(),
            want == targets_for(lines@, first),
            *next == numbered(first, i as int),
            targets@ == want.take(i as int),
            views(all@) == before + pending_at(source@, want.take(i as int)),
        decreases lines@.len() - i,
    {
        let ghost so_far = views(all@);
        let id = *next;
        let line = lines[i];
        *next = id.wrapping_add(1);
        targets.push(Target { id, line });
        let entry = BreakpointEntry {
            id,
            source_path: owned(source),
            requested_line: line,
            state: BpState::Pending,
        };
        all.push(entry);
        assert(views(all@) =~= so_far.push(entry@));
        i += 1;
        proof {
            assert(targets@ =~= want.take(i as int));
            assert(want.take(i as int) =~= want.take(i - 1).push(want[i - 1]));
            assert(views(all@) =~= before + pending_at(source@, want.take(i as int)));
        }
    }
    assert(want.take(i as int) =~= want);
    targets
}

// ---------------------------------------------------------------------------
// What becomes of a breakpoint
// ---------------------------------------------------------------------------

/// The index of the first breakpoint with the given number, or the length where there is none.
pub open spec fn index_of_id(all: Seq<BreakpointView>, id: u32) -> int
    decreases all.len(),
{
    if all.len() == 0 || all[0].id == id {
        0
    } else {
        1 + index_of_id(all.drop_first(), id)
    }
}

proof fn lemma_index_of_id(all: Seq<BreakpointView>, id: u32, n: int)
    requires
        0 <= n <= all.len(),
        n < all.len() ==> all[n].id == id,
        forall|i: int| 0 <= i < n ==> (#[trigger] all[i]).id != id,
    ensures
        index_of_id(all, id) == n,
    decreases all.len(),
{
    if n > 0 {
        assert(all[0].id != id);
        let t = all.drop_first();
        assert forall|i: int| 0 <= i < n - 1 implies (#[trigger] t[i]).id != id by {
            assert(t[i] == all[i + 1]);
        }
        if n < all.len() {
            assert(t[n - 1] == all[n]);
        }
        lemma_index_of_id(t, id, n - 1);
    }
}

/// The breakpoints, with another state for the one with the given number.
pub open spec fn with_state(all: Seq<BreakpointView>, id: u32, state: BpStateView) -> Seq<
    BreakpointView,
> {
    let n = index_of_id(all, id);
    if 0 <= n < all.len() {
        all.update(n, BreakpointView { state, ..all[n] })
    } else {
        all
    }
}

/// The breakpoints, where the one with the given number is now set in one class more; one that
/// is not set at all stays so.
pub open spec fn with_class(all: Seq<BreakpointView>, id: u32, class: Seq<char>, request: u32) -> Seq<
    BreakpointView,
> {
    let n = index_of_id(all, id);
    if 0 <= n < all.len() {
        match all[n].state {
            BpStateView::Installed { classes, installed_line } => all.update(
                n,
                BreakpointView {
                    state: BpStateView::Installed {
                        classes: classes.push((class, request)),
                        installed_line,
                    },
                    ..all[n]
                },
            ),
            _ => all,
        }
    } else {
        all
    }
}

fn find_id(all: &Vec<BreakpointEntry>, id: u32) -> (n: usize)
    ensures
        n == index_of_id(views(all@), id),
        n <= all@.len(),
{
    let mut n: usize = 0;
    while n < all.len() && all[n].id != id
        invariant
            n <= all@.len(),
            forall|i: int| 0 <= i < n ==> (#[trigger] views(all@)[i]).id != id,
        decreases all@.len() - n,
    {
        n += 1;
    }
    proof {
        lemma_index_of_id(views(all@), id, n as int);
    }
    n
}

pub fn set_state(all: &mut Vec<BreakpointEntry>, id: u32, state: BpState)
    ensures
        views(final(all)@) == with_state(views(old(all)@), id, state@),
{
    let ghost before = views(all@);
    let n = find_id(all, id);
    if n < all.len() {
        all[n].state = state;
        assert(views(all@) =~= with_state(before, id, state@));
    }
}

pub fn add_class(all: &mut Vec<BreakpointEntry>, id: u32, class: &str, request: u32)
    ensures
        views(final(all)@) == with_class(views(old(all)@), id, class@, request),
{
    let ghost before = views(all@);
    let n = find_id(all, id);
    if n < all.len() {
        let ghost entry = all@[n as int]@;
        let mut state = BpState::Pending;
        std::mem::swap(&mut state, &mut all[n].state);
        match state {
            BpState::Installed { mut classes, installed_line } => {
                let ghost old_classes = class_requests(classes@);
                classes.push((owned(class), request));
                assert(class_requests(classes@) =~= old_classes.push((class@, request)));
                all[n].state = BpState::Installed { classes, installed_line };
            },
            other => {
                all[n].state = other;
            },
        }
        assert(views(all@) =~= with_class(before, id, class@, request));
    }
}

// ---------------------------------------------------------------------------
// What a class that is loaded calls for
// ---------------------------------------------------------------------------

pub open spec fn names_class(classes: Seq<(Seq<char>, u32)>, class: Seq<char>) -> bool {
    exists|i: int| 0 <= i < classes.len() && (#[trigger] classes[i]).0 == class
}

/// Whether a breakpoint is set in the given class.
pub open spec fn is_set_in(b: BreakpointView, class: Seq<char>) -> bool {
    match b.state {
        BpStateView::Installed { classes, .. } => names_class(classes, class),
        _ => false,
    }
}

/// Whether a breakpoint of the given source file is still to be set.
pub open spec fn is_pending_at(b: BreakpointView, source: Seq<char>) -> bool {
    same_path(b.source_path, source) && b.state is Pending
}

/// Whether a breakpoint of the given source file is set, but not in the given class.
pub open spec fn is_extendable_at(b: BreakpointView, source: Seq<char>, class: Seq<char>) -> bool {
    same_path(b.source_path, source) && b.state is Installed && !is_set_in(b, class)
}

pub open spec fn pending_targets(all: Seq<BreakpointView>, source: Seq<char>) -> Seq<Target>
    decreases all.len(),
{
    if all.len() == 0 {
        seq![]
    } else if is_pending_at(all.last(), source) {
        pending_targets(all.drop_last(), source).push(
            Target { id: all.last().id, line: all.last().requested_line },
        )
    } else {
        pending_targets(all.drop_last(), source)
    }
}

pub open spec fn extendable_targets(
    all: Seq<BreakpointView>,
    source: Seq<char>,
    class: Seq<char>,
) -> Seq<Target>
    decreases all.len(),
{
    if all.len() == 0 {
        seq![]
    } else if is_extendable_at(all.last(), source, class) {
        extendable_targets(all.drop_last(), source, class).push(
            Target { id: all.last().id, line: all.last().requested_line },
        )
    } else {
        extendable_targets(all.drop_last(), source, class)
    }
}

fn has_class(classes: &[(String, u32)], class: &str) -> (r: bool)
    ensures
        r == names_class(class_requests(classes@), class@),
{
    let mut i: usize = 0;
    assert(class_requests(classes@).len() == classes@.len());
    while i < classes.len()
        invariant
            i <= classes@.len(),
            forall|k: int|
                0 <= k < i ==> (#[trigger] class_requests(classes@)[k]).0 != class@,
        decreases classes@.len() - i,
    {
        if crate::text::same_text(classes[i].0.as_str(), class) {
            assert(class_requests(classes@)[i as int].0 == class@);
            return true;
        }
        i += 1;
    }
    false
}

/// The breakpoints of a source file that a class compiled from it calls for: those still to be
/// set, and those that are set, but not in this class.
pub fn targets_of_class(all: &Vec<BreakpointEntry>, source: &str, class: &str) -> (r: (
    Vec<Target>,
    Vec<Target>,
))
    ensures
        r.0@ == pending_targets(views(all@), source@),
        r.1@ == extendable_targets(views(all@), source@, class@),
{
    let mut pending: Vec<Target> = Vec::new();
    let mut extendable: Vec<Target> = Vec::new();
    let ghost bps = views(all@);
    let mut i: usize = 0;
    assert(bps.take(0) =~= seq![]);
    while i < all.len()
        invariant
            i <= all@.len(),
            bps == views(all@),
            pending@ == pending_targets(bps.take(i as int), source@),
            extendable@ == extendable_targets(bps.take(i as int), source@, class@),
        decreases all@.len() - i,
    {
        assert(bps.take(i + 1).drop_last() =~= bps.take(i as int));
        assert(bps.take(i + 1).last() == all@[i as int]@);
        let entry = &all[i];
        if is_same_path(entry.source_path.as_str(), source) {
            let target = Target { id: entry.id, line: entry.requested_line };
            match &entry.state {
                BpState::Pending => {
                    pending.push(target);
                },
                BpState::Installed { classes, installed_line } => {
                    if !has_class(classes.as_slice(), class) {
                        extendable.push(target);
                    }
                },
                BpState::Rejected => {},
            }
        }
        i += 1;
    }
    assert(bps.take(i as int) =~= bps);
    (pending, extendable)
}

// ---------------------------------------------------------------------------
// What holds of a session's breakpoints
// ---------------------------------------------------------------------------

/// A loaded class of a source file calls for all breakpoints of that file that wait for one, in
/// their order, each by its number and the line that was asked for; and for no others.
pub proof fn law_all_waiting_breakpoints_are_called_for(all: Seq<BreakpointView>, source: Seq<char>)
    ensures
        pending_targets(all, source) == all.filter(
            |b: BreakpointView| same_path(b.source_path, source) && b.state == BpStateView::Pending,
        ).map_values(|b: BreakpointView| Target { id: b.id, line: b.requested_line }),
        forall|i: int|
            0 <= i < all.len() && same_path((#[trigger] all[i]).source_path, source)
                && all[i].state == BpStateView::Pending ==> pending_targets(all, source).contains(
                Target { id: all[i].id, line: all[i].requested_line },
            ),
        forall|k: int|
            0 <= k < pending_targets(all, source).len() ==> {
                let t = #[trigger] pending_targets(all, source)[k];
                exists|i: int|
                    0 <= i < all.len() && same_path((#[trigger] all[i]).source_path, source)
                        && all[i].state == BpStateView::Pending && t.id == all[i].id && t.line == all[i].requested_line
            },
    decreases all.len(),
{
    reveal(Seq::filter);
    let waits = |b: BreakpointView|
        same_path(b.source_path, source) && b.state == BpStateView::Pending;
    let target = |b: BreakpointView| Target { id: b.id, line: b.requested_line };
    let got = pending_targets(all, source);
    if all.len() > 0 {
        let less = all.drop_last();
        law_all_waiting_breakpoints_are_called_for(less, source);
        let before = pending_targets(less, source);
        assert(got =~= all.filter(waits).map_values(target));
        assert forall|i: int|
            0 <= i < all.len() && same_path((#[trigger] all[i]).source_path, source)
                && all[i].state == BpStateView::Pending implies got.contains(
            Target { id: all[i].id, line: all[i].requested_line },
        ) by {
            if i < less.len() {
                assert(less[i] == all[i]);
                let k = choose|k: int|
                    0 <= k < before.len() && before[k] == (Target {
                        id: all[i].id,
                        line: all[i].requested_line,
                    });
                assert(got[k] == before[k]);
            } else {
                assert(got[got.len() - 1] == (Target {
                    id: all[i].id,
                    line: all[i].requested_line,
                }));
            }
        }
        assert forall|k: int| 0 <= k < got.len() implies {
            let t = #[trigger] got[k];
            exists|i: int|
                0 <= i < all.len() && same_path((#[trigger] all[i]).source_path, source)
                    && all[i].state == BpStateView::Pending && t.id == all[i].id && t.line == all[i].requested_line
        } by {
            if k < before.len() {
                let t = before[k];
                let i = choose|i: int|
                    0 <= i < less.len() && same_path((#[trigger] less[i]).source_path, source)
                        && less[i].state == BpStateView::Pending && t.id == less[i].id && t.line == less[i].requested_line;
                assert(all[i] == less[i]);
                assert(got[k].id == all[i].id && got[k].line == all[i].requested_line);
            } else {
                let i = all.len() - 1;
                assert(all[i] == all.last());
                assert(got[k].id == all[i].id && got[k].line == all[i].requested_line);
            }
        }
    } else {
        assert(got.len() == 0);
        assert(got =~= all.filter(waits).map_values(target));
    }
}

/// A loaded class of a source file is added to all breakpoints of that file that are set in other
/// classes only, in their order; and to no others.
pub proof fn law_all_set_breakpoints_take_in_a_class(
    all: Seq<BreakpointView>,
    source: Seq<char>,
    class: Seq<char>,
)
    ensures
        extendable_targets(all, source, class) == all.filter(
            |b: BreakpointView|
                same_path(b.source_path, source) && match b.state {
                    BpStateView::Installed { classes, .. } => forall|i: int|
                        0 <= i < classes.len() ==> (#[trigger] classes[i]).0 != class,
                    _ => false,
                },
        ).map_values(|b: BreakpointView| Target { id: b.id, line: b.requested_line }),
    decreases all.len(),
{
    reveal(Seq::filter);
    let grows = |b: BreakpointView|
        same_path(b.source_path, source) && match b.state {
            BpStateView::Installed { classes, .. } => forall|i: int|
                0 <= i < classes.len() ==> (#[trigger] classes[i]).0 != class,
            _ => false,
        };
    let target = |b: BreakpointView| Target { id: b.id, line: b.requested_line };
    if all.len() > 0 {
        law_all_set_breakpoints_take_in_a_class(all.drop_last(), source, class);
        assert(is_extendable_at(all.last(), source, class) == grows(all.last()));
    }
    assert(extendable_targets(all, source, class) =~= all.filter(grows).map_values(target));
}

/// The breakpoints of other source files are kept, all of them and in their order; the requests
/// of those of the source file are given back, all of them and in order.
pub proof fn law_breakpoints_of_a_source_are_taken_out(all: Seq<BreakpointView>, source: Seq<char>)
    ensures
        elsewhere(all, source) == all.filter(
            |b: BreakpointView| !same_path(b.source_path, source),
        ),
        requests_at(all, source) == all.filter(
            |b: BreakpointView| same_path(b.source_path, source),
        ).map_values(
            |b: BreakpointView|
                match b.state {
                    BpStateView::Installed { classes, .. } => Seq::new(
                        classes.len(),
                        |i: int| classes[i].1,
                    ),
                    _ => Seq::<u32>::empty(),
                },
        ).flatten(),
    decreases all.len(),
{
    reveal(Seq::filter);
    let here = |b: BreakpointView| same_path(b.source_path, source);
    let other = |b: BreakpointView| !same_path(b.source_path, source);
    let asked = |b: BreakpointView|
        match b.state {
            BpStateView::Installed { classes, .. } => Seq::new(
                classes.len(),
                |i: int| classes[i].1,
            ),
            _ => Seq::<u32>::empty(),
        };
    if all.len() > 0 {
        let less = all.drop_last();
        law_breakpoints_of_a_source_are_taken_out(less, source);
        assert(elsewhere(all, source) =~= all.filter(other));
        let lists = all.filter(here).map_values(asked);
        let before = less.filter(here).map_values(asked);
        if here(all.last()) {
            assert(requests_of(all.last()) =~= asked(all.last()));
            assert(lists =~= before.push(asked(all.last())));
            before.lemma_flatten_push(asked(all.last()));
        } else {
            assert(lists =~= before);
        }
    } else {
        assert(all.filter(here).map_values(asked) =~= seq![]);
        assert(elsewhere(all, source) =~= all.filter(other));
    }
}

/// New breakpoints stand at the lines that were asked for, one for each and in order, and wait to
/// be set. Their numbers go up by one from the given number, and start again at zero.
pub proof fn law_new_breakpoints(source: Seq<char>, lines: Seq<u32>, first: u32)
    ensures
        targets_for(lines, first).len() == lines.len(),
        pending_at(source, targets_for(lines, first)).len() == lines.len(),
        forall|i: int|
            0 <= i < lines.len() ==> {
                let b = #[trigger] pending_at(source, targets_for(lines, first))[i];
                &&& b.source_path == source
                &&& b.requested_line == lines[i]
                &&& b.state == BpStateView::Pending
                &&& b.id == targets_for(lines, first)[i].id
                &&& targets_for(lines, first)[i].line == lines[i]
            },
        lines.len() > 0 ==> targets_for(lines, first)[0].id == first,
        forall|i: int|
            0 < i < lines.len() ==> {
                let a = (#[trigger] targets_for(lines, first)[i]).id;
                let b = targets_for(lines, first)[i - 1].id;
                a == b + 1 || a == 0 && b == 0xffff_ffffu32
            },
{
}

/// What is changed of a breakpoint is changed of the first one with the number, and of nothing
/// else.
pub proof fn law_only_the_breakpoint_with_the_number_changes(
    all: Seq<BreakpointView>,
    id: u32,
    state: BpStateView,
    class: Seq<char>,
    request: u32,
)
    ensures
        with_state(all, id, state).len() == all.len(),
        with_class(all, id, class, request).len() == all.len(),
        forall|i: int|
            0 <= i < all.len() ==> {
                let b = #[trigger] all[i];
                let first = b.id == id && forall|j: int|
                    0 <= j < i ==> (#[trigger] all[j]).id != id;
                let c = with_state(all, id, state)[i];
                let d = with_class(all, id, class, request)[i];
                &&& c.id == b.id && c.source_path == b.source_path && c.requested_line
                    == b.requested_line
                &&& c.state == if first {
                    state
                } else {
                    b.state
                }
                &&& d.id == b.id && d.source_path == b.source_path && d.requested_line
                    == b.requested_line
                &&& d.state == match b.state {
                    BpStateView::Installed { classes, installed_line } => if first {
                        BpStateView::Installed {
                            classes: classes.push((class, request)),
                            installed_line,
                        }
                    } else {
                        b.state
                    },
                    _ => b.state,
                }
            },
{
    lemma_id_is_found(all, id);
}

proof fn lemma_id_is_found(all: Seq<BreakpointView>, id: u32)
    ensures
        0 <= index_of_id(all, id) <= all.len(),
        index_of_id(all, id) < all.len() ==> all[index_of_id(all, id)].id == id,
        forall|i: int| 0 <= i < index_of_id(all, id) ==> (#[trigger] all[i]).id != id,
    decreases all.len(),
{
    if all.len() > 0 && all[0].id != id {
        let t = all.drop_first();
        lemma_id_is_found(t, id);
        assert forall|i: int| 0 <= i < index_of_id(all, id) implies (#[trigger] all[i]).id
            != id by {
            if i > 0 {
                assert(all[i] == t[i - 1]);
            }
        }
    }
}

} // verus!
