//! The executable lines of a class, and where a breakpoint goes.

use vstd::prelude::*;
use crate::jdwp::client::{
    about, about_method, get_line_table, Command, CommandView, JdwpClient,
};
use crate::jdwp::read::{get_list, JdwpError};
use crate::jdwp::{LineTableEntry, Location, MethodInfo, MethodInfoView};
use crate::list::views;
use crate::server::{reply_view, Reply};

verus! {

/// How many lines below the requested one a breakpoint may go. A class that has no code so near
/// is not the one that the line belongs to.
pub const MAX_GAP: u32 = 2;

/// Whether a breakpoint that is requested at `requested` may go to `line`.
pub open spec fn in_gap(line: u32, requested: u32) -> bool {
    requested <= line <= requested + MAX_GAP
}

/// Where a breakpoint goes: the nearest executable line at or below the requested one, at the
/// first place that has it.
pub open spec fn nearest(lines: Seq<(u32, Location)>, requested: u32) -> Option<(u32, Location)>
    decreases lines.len(),
{
    if lines.len() == 0 {
        None
    } else {
        let found = nearest(lines.drop_last(), requested);
        if in_gap(lines.last().0, requested) && (found matches Some(f) ==> lines.last().0 < f.0) {
            Some(lines.last())
        } else {
            found
        }
    }
}

/// The line that is found is one of the lines, not above the requested one and not too far
/// below it, and no line in between would do. None is found only where there is none.
pub proof fn law_nearest_is_nearest(lines: Seq<(u32, Location)>, requested: u32)
    ensures
        match nearest(lines, requested) {
            Some(f) => {
                &&& lines.contains(f)
                &&& in_gap(f.0, requested)
                &&& forall|i: int|
                    0 <= i < lines.len() && in_gap((#[trigger] lines[i]).0, requested) ==> f.0
                        <= lines[i].0
            },
            None => forall|i: int|
                0 <= i < lines.len() ==> !in_gap((#[trigger] lines[i]).0, requested),
        },
    decreases lines.len(),
{
    if lines.len() > 0 {
        let less = lines.drop_last();
        law_nearest_is_nearest(less, requested);
        let last = lines.last();
        assert(lines[lines.len() - 1] == last);
        match nearest(lines, requested) {
            Some(f) => {
                if f != last {
                    let i = choose|i: int| 0 <= i < less.len() && less[i] == f;
                    assert(lines[i] == f);
                }
                assert forall|i: int|
                    0 <= i < lines.len() && in_gap((#[trigger] lines[i]).0, requested) implies f.0
                    <= lines[i].0 by {
                    if i < less.len() {
                        assert(less[i] == lines[i]);
                    }
                }
            },
            None => {
                assert forall|i: int| 0 <= i < lines.len() implies !in_gap(
                    (#[trigger] lines[i]).0,
                    requested,
                ) by {
                    if i < less.len() {
                        assert(less[i] == lines[i]);
                    }
                }
            },
        }
    }
}

pub fn nearest_line(lines: &[(u32, Location)], requested: u32) -> (r: Option<(u32, Location)>)
    ensures
        r == nearest(lines@, requested),
{
    let mut found: Option<(u32, Location)> = None;
    let mut i: usize = 0;
    assert(lines@.take(0) =~= seq![]);
    while i < lines.len()
        invariant
            i <= lines@.len(),
            found == nearest(lines@.take(i as int), requested),
        decreases lines@.len() - i,
    {
        assert(lines@.take(i + 1).drop_last() =~= lines@.take(i as int));
        assert(lines@.take(i + 1).last() == lines@[i as int]);
        let line = lines[i].0;
        if line >= requested && line - requested <= MAX_GAP {
            let closer = match found {
                Some(f) => line < f.0,
                None => true,
            };
            if closer {
                found = Some(lines[i]);
            }
        }
        i += 1;
    }
    assert(lines@.take(i as int) =~= lines@);
    found
}

// ---------------------------------------------------------------------------
// Asking for the lines of a class
// ---------------------------------------------------------------------------

/// Collects the lines of a class: first its methods are asked for, then the lines of each.
pub struct LineCollector {
    pub ref_type_tag: u8,
    pub ref_type_id: u64,
    /// The methods of the class; none before they are known.
    pub methods: Option<Vec<u64>>,
    /// What has been found: each line, and where its code starts.
    pub lines: Vec<(u32, Location)>,
    /// How many methods have been asked about.
    pub asked: usize,
}

#[verifier::ext_equal]
pub struct LineCollectorView {
    pub ref_type_tag: u8,
    pub ref_type_id: u64,
    pub methods: Option<Seq<u64>>,
    pub lines: Seq<(u32, Location)>,
    pub asked: nat,
}

impl View for LineCollector {
    type V = LineCollectorView;

    open spec fn view(&self) -> LineCollectorView {
        LineCollectorView {
            ref_type_tag: self.ref_type_tag,
            ref_type_id: self.ref_type_id,
            methods: match self.methods {
                None => None,
                Some(m) => Some(m@),
            },
            lines: self.lines@,
            asked: self.asked as nat,
        }
    }
}

/// The methods in the answer; none where there is no answer.
pub open spec fn methods_in(reply: Result<Seq<u8>, JdwpError>) -> Seq<MethodInfoView> {
    match reply {
        Ok(d) => match get_list::<MethodInfo>(d, 0) {
            Ok((methods, _)) => methods,
            Err(_) => seq![],
        },
        Err(_) => seq![],
    }
}

pub open spec fn ids_of(methods: Seq<MethodInfoView>) -> Seq<u64> {
    methods.map_values(|m: MethodInfoView| m.method_id)
}

/// The lines in the answer; none where there is no answer, as for a method without code.
pub open spec fn table_in(reply: Result<Seq<u8>, JdwpError>) -> Seq<LineTableEntry> {
    match reply {
        Ok(d) => match get_line_table(d) {
            Ok(table) => table.lines,
            Err(_) => seq![],
        },
        Err(_) => seq![],
    }
}

/// The lines of a method, each with the place of its code.
pub open spec fn placed(tag: u8, class_id: u64, method_id: u64, table: Seq<LineTableEntry>) -> Seq<
    (u32, Location),
> {
    table.map_values(
        |e: LineTableEntry|
            (e.line_number, Location { type_tag: tag, class_id, method_id, index: e.line_code_index }),
    )
}

impl LineCollectorView {
    pub open spec fn new(ref_type_tag: u8, ref_type_id: u64) -> LineCollectorView {
        LineCollectorView {
            ref_type_tag,
            ref_type_id,
            methods: None,
            lines: seq![],
            asked: 0,
        }
    }

    /// What is to be asked next; nothing where all lines are there.
    pub open spec fn asks(self) -> Option<CommandView> {
        match self.methods {
            None => Some(about(2, 15, self.ref_type_id)),
            Some(m) => if self.asked < m.len() {
                Some(about_method(1, self.ref_type_id, m[self.asked as int]))
            } else {
                None
            },
        }
    }

    /// One before the methods are known, then zero.
    pub open spec fn methods_unknown(self) -> nat {
        if self.methods is None {
            1
        } else {
            0
        }
    }

    /// How many of the methods that are known have not been asked about.
    pub open spec fn methods_left(self) -> nat {
        match self.methods {
            None => 0,
            Some(m) => if self.asked < m.len() {
                (m.len() - self.asked) as nat
            } else {
                0
            },
        }
    }

    /// What is known once the question is answered.
    pub open spec fn told(self, reply: Result<Seq<u8>, JdwpError>) -> LineCollectorView {
        match self.methods {
            None => LineCollectorView { methods: Some(ids_of(methods_in(reply))), ..self },
            Some(m) => if self.asked < m.len() {
                LineCollectorView {
                    lines: self.lines + placed(
                        self.ref_type_tag,
                        self.ref_type_id,
                        m[self.asked as int],
                        table_in(reply),
                    ),
                    asked: self.asked + 1,
                    ..self
                }
            } else {
                self
            },
        }
    }
}

/// Each answer brings the collector nearer to its end, so that its questions come to one.
pub proof fn law_collector_comes_to_an_end(c: LineCollectorView, reply: Result<Seq<u8>, JdwpError>)
    requires
        c.asks() is Some,
    ensures
        decreases_to!(
            c.methods_unknown(), c.methods_left() =>
            c.told(reply).methods_unknown(), c.told(reply).methods_left()
        ),
{
}

pub(crate) fn read_methods(reply: &Reply) -> (v: Vec<MethodInfo>)
    ensures
        views(v@) == methods_in(reply_view(*reply)),
{
    if let Ok(data) = reply {
        if let Ok(methods) = JdwpClient::ref_type_methods_reply(data.as_slice()) {
            return methods;
        }
    }
    let v: Vec<MethodInfo> = Vec::new();
    assert(views(v@) =~= seq![]);
    v
}

pub(crate) fn read_table(reply: &Reply) -> (v: Vec<LineTableEntry>)
    ensures
        v@ == table_in(reply_view(*reply)),
{
    if let Ok(data) = reply {
        if let Ok(table) = JdwpClient::method_line_table_reply(data.as_slice()) {
            return table.lines;
        }
    }
    Vec::new()
}

impl LineCollector {
    pub fn new(ref_type_tag: u8, ref_type_id: u64) -> (c: LineCollector)
        ensures
            c@ == LineCollectorView::new(ref_type_tag, ref_type_id),
    {
        let c = LineCollector {
            ref_type_tag,
            ref_type_id,
            methods: None,
            lines: Vec::new(),
            asked: 0,
        };
        assert(c@ =~= LineCollectorView::new(ref_type_tag, ref_type_id));
        c
    }

    pub fn next(&self) -> (r: Option<Command>)
        ensures
            match self@.asks() {
                None => r is None,
                Some(c) => r matches Some(x) && x@ == c,
            },
    {
        match &self.methods {
            None => Some(JdwpClient::ref_type_methods(self.ref_type_id)),
            Some(m) => if self.asked < m.len() {
                Some(JdwpClient::method_line_table(self.ref_type_id, m[self.asked]))
            } else {
                None
            },
        }
    }

    pub fn supply(&mut self, reply: &Reply)
        ensures
            final(self)@ == old(self)@.told(reply_view(*reply)),
    {
        let ghost before = self@;
        match &self.methods {
            None => {
                let methods = read_methods(reply);
                let mut ids: Vec<u64> = Vec::new();
                let ghost want = ids_of(views(methods@));
                let mut i: usize = 0;
                while i < methods.len()
                    invariant
                        i <= methods@.len() == want.len(),
                        want == ids_of(views(methods@)),
                        ids@ == want.take(i as int),
                    decreases methods@.len() - i,
                {
                    ids.push(methods[i].method_id);
                    i += 1;
                    assert(ids@ =~= want.take(i as int));
                }
                assert(ids@ =~= want);
                self.methods = Some(ids);
                assert(self@ =~= before.told(reply_view(*reply)));
            },
            Some(m) => {
                if self.asked < m.len() {
                    let method_id = m[self.asked];
                    let table = read_table(reply);
                    let ghost want = placed(
                        self.ref_type_tag,
                        self.ref_type_id,
                        method_id,
                        table@,
                    );
                    let mut i: usize = 0;
                    assert(self.lines@ =~= before.lines + want.take(0));
                    while i < table.len()
                        invariant
                            i <= table@.len() == want.len(),
                            want == placed(
                                self.ref_type_tag,
                                self.ref_type_id,
                                method_id,
                                table@,
                            ),
                            self.lines@ == before.lines + want.take(i as int),
                            self.ref_type_tag == before.ref_type_tag,
                            self.ref_type_id == before.ref_type_id,
                            self.asked == before.asked,
                            self.methods is Some && before.methods == Some(self.methods->0@),
                            self.asked < self.methods->0@.len(),
                        decreases table@.len() - i,
                    {
                        let entry = table[i];
                        self.lines.push(
                            (
                                entry.line_number,
                                Location {
                                    type_tag: self.ref_type_tag,
                                    class_id: self.ref_type_id,
                                    method_id,
                                    index: entry.line_code_index,
                                },
                            ),
                        );
                        i += 1;
                        assert(self.lines@ =~= before.lines + want.take(i as int));
                    }
                    assert(want.take(i as int) =~= want);
                    self.asked = self.asked + 1;
                    assert(self@ =~= before.told(reply_view(*reply)));
                }
            },
        }
    }
}

} // verus!
