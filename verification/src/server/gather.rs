//! Gathering a snapshot of a stopped JVM, question by question.

use vstd::pervasive::unreached;
use vstd::prelude::*;
use crate::jdwp::client::{about, get_variable_table, Command, CommandView, JdwpClient};
use crate::jdwp::read::{get_list, get_string, JdwpError};
use crate::jdwp::value::{JvmValue, Real, TAG_STRING};
use crate::jdwp::{FrameInfo, LineTableEntry, ThreadId, VariableInfo, VariableInfoView};
use crate::list::views;
use crate::number::hex;
use crate::server::snapshot::{SnapshotVariable, VariableView};
use crate::server::{reply_view, signature_tag, tag_for_signature, Reply};
use crate::text::{owned, texts};

verus! {

/// What is to be found out next.
#[derive(Debug, PartialEq, Eq)]
pub enum Need {
    /// The answer to a command.
    Command(Command),
    /// The text of a floating-point number.
    Real(Real),
}

pub enum NeedView {
    Command(CommandView),
    Real(Real),
}

impl View for Need {
    type V = NeedView;

    open spec fn view(&self) -> NeedView {
        match *self {
            Need::Command(c) => NeedView::Command(c@),
            Need::Real(r) => NeedView::Real(r),
        }
    }
}

/// Whether what is needed is what `want` says.
pub open spec fn need_is(r: Option<Need>, want: Option<NeedView>) -> bool {
    match want {
        None => r is None,
        Some(w) => r matches Some(x) && x@ == w,
    }
}

// ---------------------------------------------------------------------------
// What the answers say
// ---------------------------------------------------------------------------

/// The string in the answer, unless there is no answer.
pub open spec fn string_in(reply: Result<Seq<u8>, JdwpError>) -> Option<Seq<char>> {
    match reply {
        Ok(d) => match get_string(d, 0) {
            Ok((s, _)) => Some(s),
            Err(_) => None,
        },
        Err(_) => None,
    }
}

pub(crate) fn read_text(reply: &Reply) -> (r: Option<String>)
    ensures
        match string_in(reply_view(*reply)) {
            None => r is None,
            Some(s) => r matches Some(t) && t@ == s,
        },
{
    match reply {
        Ok(data) => match JdwpClient::string_value_reply(data.as_slice()) {
            Ok(s) => Some(s),
            Err(_) => None,
        },
        Err(_) => None,
    }
}

pub open spec fn threads_in(reply: Result<Seq<u8>, JdwpError>) -> Seq<u64> {
    match reply {
        Ok(d) => match get_list::<ThreadId>(d, 0) {
            Ok((ids, _)) => ids,
            Err(_) => seq![],
        },
        Err(_) => seq![],
    }
}

pub open spec fn frames_in(reply: Result<Seq<u8>, JdwpError>) -> Seq<FrameInfo> {
    match reply {
        Ok(d) => match get_list::<FrameInfo>(d, 0) {
            Ok((frames, _)) => frames,
            Err(_) => seq![],
        },
        Err(_) => seq![],
    }
}

pub open spec fn variables_in(reply: Result<Seq<u8>, JdwpError>) -> Seq<VariableInfoView> {
    match reply {
        Ok(d) => match get_variable_table(d) {
            Ok(variables) => variables,
            Err(_) => seq![],
        },
        Err(_) => seq![],
    }
}

pub open spec fn values_in(reply: Result<Seq<u8>, JdwpError>) -> Seq<JvmValue> {
    match reply {
        Ok(d) => match get_list::<JvmValue>(d, 0) {
            Ok((values, _)) => values,
            Err(_) => seq![],
        },
        Err(_) => seq![],
    }
}

pub(crate) fn read_threads(reply: &Reply) -> (v: Vec<ThreadId>)
    ensures
        views(v@) == threads_in(reply_view(*reply)),
{
    if let Ok(data) = reply {
        if let Ok(ids) = JdwpClient::vm_all_threads_reply(data.as_slice()) {
            return ids;
        }
    }
    let v: Vec<ThreadId> = Vec::new();
    assert(views(v@) =~= seq![]);
    v
}

pub(crate) fn read_frames(reply: &Reply) -> (v: Vec<FrameInfo>)
    ensures
        v@ == frames_in(reply_view(*reply)),
{
    if let Ok(data) = reply {
        if let Ok(frames) = JdwpClient::thread_frames_reply(data.as_slice()) {
            assert(views(frames@) =~= frames@);
            return frames;
        }
    }
    Vec::new()
}

pub(crate) fn read_variables(reply: &Reply) -> (v: Vec<VariableInfo>)
    ensures
        views(v@) == variables_in(reply_view(*reply)),
{
    if let Ok(data) = reply {
        if let Ok(variables) = JdwpClient::method_variable_table_reply(data.as_slice()) {
            return variables;
        }
    }
    let v: Vec<VariableInfo> = Vec::new();
    assert(views(v@) =~= seq![]);
    v
}

pub(crate) fn read_values(reply: &Reply) -> (v: Vec<JvmValue>)
    ensures
        v@ == values_in(reply_view(*reply)),
{
    if let Ok(data) = reply {
        if let Ok(values) = JdwpClient::stack_frame_get_values_reply(data.as_slice()) {
            assert(views(values@) =~= values@);
            return values;
        }
    }
    Vec::new()
}

// ---------------------------------------------------------------------------
// What is made of them
// ---------------------------------------------------------------------------

/// The line that the code at `index` belongs to: that of the last entry whose code starts
/// nearest before it, or at it.
pub open spec fn entry_at(table: Seq<LineTableEntry>, index: u64) -> Option<LineTableEntry>
    decreases table.len(),
{
    if table.len() == 0 {
        None
    } else {
        let found = entry_at(table.drop_last(), index);
        let last = table.last();
        if last.line_code_index <= index && (found matches Some(f) ==> f.line_code_index
            <= last.line_code_index) {
            Some(last)
        } else {
            found
        }
    }
}

pub open spec fn line_at(table: Seq<LineTableEntry>, index: u64) -> Option<u32> {
    match entry_at(table, index) {
        Some(e) => Some(e.line_number),
        None => None,
    }
}

/// The entry that is found starts at or before the code, and no other such entry starts later.
/// None is found only where all start behind the code.
pub proof fn law_line_starts_nearest_before(table: Seq<LineTableEntry>, index: u64)
    ensures
        match entry_at(table, index) {
            Some(e) => {
                &&& table.contains(e)
                &&& e.line_code_index <= index
                &&& forall|i: int|
                    0 <= i < table.len() && (#[trigger] table[i]).line_code_index <= index
                        ==> table[i].line_code_index <= e.line_code_index
            },
            None => forall|i: int|
                0 <= i < table.len() ==> (#[trigger] table[i]).line_code_index > index,
        },
    decreases table.len(),
{
    if table.len() > 0 {
        let less = table.drop_last();
        law_line_starts_nearest_before(less, index);
        assert(table[table.len() - 1] == table.last());
        match entry_at(table, index) {
            Some(e) => {
                if e != table.last() {
                    let i = choose|i: int| 0 <= i < less.len() && less[i] == e;
                    assert(table[i] == e);
                }
                assert forall|i: int|
                    0 <= i < table.len() && (#[trigger] table[i]).line_code_index <= index implies
                    table[i].line_code_index <= e.line_code_index by {
                    if i < less.len() {
                        assert(less[i] == table[i]);
                    }
                }
            },
            None => {
                assert forall|i: int| 0 <= i < table.len() implies (
                #[trigger] table[i]).line_code_index > index by {
                    if i < less.len() {
                        assert(less[i] == table[i]);
                    }
                }
            },
        }
    }
}

pub(crate) fn find_line(table: &[LineTableEntry], index: u64) -> (r: Option<u32>)
    ensures
        r == line_at(table@, index),
{
    let mut found: Option<LineTableEntry> = None;
    let mut i: usize = 0;
    assert(table@.take(0) =~= seq![]);
    while i < table.len()
        invariant
            i <= table@.len(),
            found == entry_at(table@.take(i as int), index),
        decreases table@.len() - i,
    {
        assert(table@.take(i + 1).drop_last() =~= table@.take(i as int));
        assert(table@.take(i + 1).last() == table@[i as int]);
        let e = table[i];
        if e.line_code_index <= index {
            let later = match found {
                Some(f) => f.line_code_index <= e.line_code_index,
                None => true,
            };
            if later {
                found = Some(e);
            }
        }
        i += 1;
    }
    assert(table@.take(i as int) =~= table@);
    match found {
        Some(e) => Some(e.line_number),
        None => None,
    }
}

/// Whether a variable is in scope at `index`.
pub open spec fn in_scope(v: VariableInfoView, index: u64) -> bool {
    v.code_index <= index < v.code_index + v.length
}

/// The variables that are in scope, in order.
pub open spec fn scope_at(variables: Seq<VariableInfoView>, index: u64) -> Seq<VariableInfoView>
    decreases variables.len(),
{
    if variables.len() == 0 {
        seq![]
    } else if in_scope(variables.last(), index) {
        scope_at(variables.drop_last(), index).push(variables.last())
    } else {
        scope_at(variables.drop_last(), index)
    }
}

pub(crate) fn find_scope(variables: Vec<VariableInfo>, index: u64) -> (v: Vec<VariableInfo>)
    ensures
        views(v@) == scope_at(views(variables@), index),
{
    let mut v: Vec<VariableInfo> = Vec::new();
    let ghost all = views(variables@);
    let mut i: usize = 0;
    assert(all.take(0) =~= seq![]);
    assert(views(v@) =~= seq![]);
    while i < variables.len()
        invariant
            i <= variables@.len(),
            all == views(variables@),
            views(v@) == scope_at(all.take(i as int), index),
        decreases variables@.len() - i,
    {
        let ghost before = views(v@);
        assert(all.take(i + 1).drop_last() =~= all.take(i as int));
        assert(all.take(i + 1).last() == variables@[i as int]@);
        let x = &variables[i];
        if x.code_index <= index && index - x.code_index < x.length as u64 {
            v.push(x.clone());
            assert(views(v@) =~= before.push(all[i as int]));
        }
        i += 1;
    }
    assert(all.take(i as int) =~= all);
    v
}

/// The slots of variables, each with the tag of its type.
pub open spec fn slots_of(variables: Seq<VariableInfoView>) -> Seq<(u32, u8)> {
    variables.map_values(|v: VariableInfoView| (v.slot, signature_tag(v.signature)))
}

pub(crate) fn find_slots(variables: &Vec<VariableInfo>) -> (v: Vec<(u32, u8)>)
    ensures
        v@ == slots_of(views(variables@)),
{
    let mut v: Vec<(u32, u8)> = Vec::new();
    let ghost want = slots_of(views(variables@));
    let mut i: usize = 0;
    while i < variables.len()
        invariant
            i <= variables@.len() == want.len(),
            want == slots_of(views(variables@)),
            v@ == want.take(i as int),
        decreases variables@.len() - i,
    {
        v.push((variables[i].slot, tag_for_signature(variables[i].signature.as_str())));
        i += 1;
        assert(v@ =~= want.take(i as int));
    }
    assert(v@ =~= want);
    v
}

/// What has to be found out to show a value: the characters of a string, or the text of a
/// floating-point number. Everything else shows by itself.
pub open spec fn query_of(v: JvmValue) -> Option<NeedView> {
    match v {
        JvmValue::Object { tag, id } => if id != 0 && tag == TAG_STRING {
            Some(NeedView::Command(about(10, 1, id)))
        } else {
            None
        },
        JvmValue::Double(bits) => Some(NeedView::Real(Real::Double(bits))),
        JvmValue::Float(bits) => Some(NeedView::Real(Real::Float(bits))),
        _ => None,
    }
}

/// How a value shows that needs nothing to be found out.
pub open spec fn plain_text(v: JvmValue) -> Seq<char> {
    match v {
        JvmValue::Object { tag: _, id } => if id == 0 {
            "null"@
        } else {
            "@"@ + hex(id as nat)
        },
        _ => v.shown()->Ok_0,
    }
}

/// How a string shows: in quotes; where its characters could not be had, as other objects do.
pub open spec fn string_text(v: JvmValue, reply: Result<Seq<u8>, JdwpError>) -> Seq<char> {
    match string_in(reply) {
        Some(s) => "\""@ + s + "\""@,
        None => plain_text(v),
    }
}

/// The values that something has to be found out for.
pub open spec fn queried(values: Seq<JvmValue>) -> Seq<JvmValue>
    decreases values.len(),
{
    if values.len() == 0 {
        seq![]
    } else if query_of(values.last()) is Some {
        queried(values.drop_last()).push(values.last())
    } else {
        queried(values.drop_last())
    }
}

/// How values show, where `found` are the texts of those that something had to be found out
/// for.
pub open spec fn displayed(values: Seq<JvmValue>, found: Seq<Seq<char>>) -> Seq<Seq<char>>
    decreases values.len(),
{
    if values.len() == 0 {
        seq![]
    } else if query_of(values.last()) is Some {
        displayed(values.drop_last(), found).push(found[queried(values.drop_last()).len() as int])
    } else {
        displayed(values.drop_last(), found).push(plain_text(values.last()))
    }
}

pub(crate) fn value_need(v: JvmValue) -> (r: Option<Need>)
    ensures
        need_is(r, query_of(v)),
{
    match v {
        JvmValue::Object { tag, id } => if id != 0 && tag == TAG_STRING {
            Some(Need::Command(JdwpClient::string_value(id)))
        } else {
            None
        },
        JvmValue::Double(bits) => Some(Need::Real(Real::Double(bits))),
        JvmValue::Float(bits) => Some(Need::Real(Real::Float(bits))),
        _ => None,
    }
}

pub(crate) fn show_plain(v: JvmValue) -> (s: String)
    requires
        !(v is Double) && !(v is Float),
    ensures
        s@ == plain_text(v),
{
    if let JvmValue::Object { tag: _, id } = v {
        if id == 0 {
            return owned("null");
        }
    }
    match v.display() {
        Ok(s) => s,
        Err(_) => unreached(),
    }
}

pub(crate) fn find_queried(values: &Vec<JvmValue>) -> (v: Vec<JvmValue>)
    ensures
        v@ == queried(values@),
{
    let mut v: Vec<JvmValue> = Vec::new();
    let mut i: usize = 0;
    assert(values@.take(0) =~= seq![]);
    while i < values.len()
        invariant
            i <= values@.len(),
            v@ == queried(values@.take(i as int)),
        decreases values@.len() - i,
    {
        assert(values@.take(i + 1).drop_last() =~= values@.take(i as int));
        assert(values@.take(i + 1).last() == values@[i as int]);
        if value_need(values[i]).is_some() {
            v.push(values[i]);
        }
        i += 1;
    }
    assert(values@.take(i as int) =~= values@);
    v
}

/// The variables of a frame: the names in scope with the values that came for them.
pub open spec fn shown_variables(scope: Seq<VariableInfoView>, shown: Seq<Seq<char>>) -> Seq<
    VariableView,
> {
    Seq::new(
        shown.len(),
        |i: int| VariableView { name: scope[i].name, display_value: shown[i] },
    )
}

proof fn lemma_displayed_len(values: Seq<JvmValue>, found: Seq<Seq<char>>)
    ensures
        displayed(values, found).len() == values.len(),
    decreases values.len(),
{
    if values.len() > 0 {
        lemma_displayed_len(values.drop_last(), found);
    }
}

proof fn lemma_queried_grows(values: Seq<JvmValue>, n: int)
    requires
        0 <= n <= values.len(),
    ensures
        queried(values.take(n)).len() <= queried(values).len(),
    decreases values.len() - n,
{
    if n < values.len() {
        assert(values.take(n + 1).drop_last() =~= values.take(n));
        lemma_queried_grows(values, n + 1);
    } else {
        assert(values.take(n) =~= values);
    }
}

pub(crate) fn show_variables(scope: &Vec<VariableInfo>, values: &Vec<JvmValue>, found: &Vec<String>) -> (v: Vec<
    SnapshotVariable,
>)
    requires
        values@.len() <= scope@.len(),
        found@.len() >= queried(values@).len(),
    ensures
        views(v@) == shown_variables(views(scope@), displayed(values@, texts(found@))),
{
    let ghost shown = displayed(values@, texts(found@));
    let ghost want = shown_variables(views(scope@), shown);
    proof {
        lemma_displayed_len(values@, texts(found@));
    }
    let mut v: Vec<SnapshotVariable> = Vec::new();
    let enough: usize = found.len();
    let mut used: usize = 0;
    let mut i: usize = 0;
    assert(values@.take(0) =~= seq![]);
    assert(views(v@) =~= shown_variables(
        views(scope@),
        displayed(values@.take(0), texts(found@)),
    ));
    while i < values.len()
        invariant
            i <= values@.len() <= scope@.len(),
            found@.len() == enough >= queried(values@).len(),
            used == queried(values@.take(i as int)).len(),
            views(v@) == shown_variables(
                views(scope@),
                displayed(values@.take(i as int), texts(found@)),
            ),
        decreases values@.len() - i,
    {
        let ghost before = views(v@);
        proof {
            assert(values@.take(i + 1).drop_last() =~= values@.take(i as int));
            assert(values@.take(i + 1).last() == values@[i as int]);
            lemma_queried_grows(values@, i + 1);
            lemma_displayed_len(values@.take(i as int), texts(found@));
            lemma_displayed_len(values@.take(i + 1), texts(found@));
        }
        let text = if value_need(values[i]).is_some() {
            let t = found[used].clone();
            used += 1;
            t
        } else {
            show_plain(values[i])
        };
        let variable = SnapshotVariable { name: scope[i].name.clone(), display_value: text };
        v.push(variable);
        assert(views(v@) =~= before.push(variable@));
        i += 1;
        assert(views(v@) =~= shown_variables(
            views(scope@),
            displayed(values@.take(i as int), texts(found@)),
        ));
    }
    assert(values@.take(i as int) =~= values@);
    v
}

// ---------------------------------------------------------------------------
// What holds of what is shown
// ---------------------------------------------------------------------------

/// A variable is shown just where the code has come to the start of its range and not to its end:
/// it is kept if and only if the index is not before its code index and less than its length
/// behind it. Those that are kept stay in their order.
pub proof fn law_variables_show_in_their_range(variables: Seq<VariableInfoView>, index: u64)
    ensures
        scope_at(variables, index) == variables.filter(
            |v: VariableInfoView| v.code_index <= index && index - v.code_index < v.length,
        ),
        forall|k: int|
            0 <= k < scope_at(variables, index).len() ==> {
                let v = #[trigger] scope_at(variables, index)[k];
                v.code_index <= index && index - v.code_index < v.length && variables.contains(v)
            },
        forall|i: int|
            0 <= i < variables.len() && (#[trigger] variables[i]).code_index <= index && index
                - variables[i].code_index < variables[i].length ==> scope_at(
                variables,
                index,
            ).contains(variables[i]),
    decreases variables.len(),
{
    reveal(Seq::filter);
    let inside = |v: VariableInfoView| v.code_index <= index && index - v.code_index < v.length;
    let got = scope_at(variables, index);
    if variables.len() > 0 {
        let less = variables.drop_last();
        law_variables_show_in_their_range(less, index);
        let before = scope_at(less, index);
        assert(got =~= variables.filter(inside));
        assert forall|k: int| 0 <= k < got.len() implies {
            let v = #[trigger] got[k];
            v.code_index <= index && index - v.code_index < v.length && variables.contains(v)
        } by {
            if k < before.len() {
                assert(got[k] == before[k]);
                let i = choose|i: int| 0 <= i < less.len() && less[i] == before[k];
                assert(variables[i] == got[k]);
            } else {
                assert(variables[variables.len() - 1] == got[k]);
            }
        }
        assert forall|i: int|
            0 <= i < variables.len() && (#[trigger] variables[i]).code_index <= index && index
                - variables[i].code_index < variables[i].length implies got.contains(
            variables[i],
        ) by {
            if i < less.len() {
                assert(less[i] == variables[i]);
                let k = choose|k: int| 0 <= k < before.len() && before[k] == less[i];
                assert(got[k] == variables[i]);
            } else {
                assert(got[got.len() - 1] == variables[i]);
            }
        }
    } else {
        assert(got =~= variables.filter(inside));
    }
}

/// The line that shows is that of an entry that starts at or before the code; where several start
/// at the nearest place, of the last one of them.
pub proof fn law_line_is_that_of_the_last_nearest_entry(table: Seq<LineTableEntry>, index: u64, i: int)
    requires
        0 <= i < table.len(),
        table[i].line_code_index <= index,
        forall|j: int|
            0 <= j < table.len() && (#[trigger] table[j]).line_code_index <= index
                ==> table[j].line_code_index < table[i].line_code_index || table[j].line_code_index
                == table[i].line_code_index && j <= i,
    ensures
        line_at(table, index) == Some(table[i].line_number),
    decreases table.len(),
{
    let less = table.drop_last();
    assert(table.last() == table[table.len() - 1]);
    if i < less.len() {
        assert forall|j: int|
            0 <= j < less.len() && (#[trigger] less[j]).line_code_index <= index implies
            less[j].line_code_index < less[i].line_code_index || less[j].line_code_index
            == less[i].line_code_index && j <= i by {
            assert(less[j] == table[j]);
        }
        law_line_is_that_of_the_last_nearest_entry(less, index, i);
        lemma_nearest_entry(less, index, i);
    } else {
        law_line_starts_nearest_before(less, index);
        if let Some(f) = entry_at(less, index) {
            let k = choose|k: int| 0 <= k < less.len() && less[k] == f;
            assert(table[k] == f);
        }
    }
}

proof fn lemma_nearest_entry(table: Seq<LineTableEntry>, index: u64, i: int)
    requires
        0 <= i < table.len(),
        table[i].line_code_index <= index,
        forall|j: int|
            0 <= j < table.len() && (#[trigger] table[j]).line_code_index <= index
                ==> table[j].line_code_index < table[i].line_code_index || table[j].line_code_index
                == table[i].line_code_index && j <= i,
    ensures
        entry_at(table, index) matches Some(e) && e.line_code_index == table[i].line_code_index,
{
    law_line_starts_nearest_before(table, index);
    assert(table[i].line_code_index <= index);
    if let Some(f) = entry_at(table, index) {
        let k = choose|k: int| 0 <= k < table.len() && table[k] == f;
        assert(table[k].line_code_index <= index);
    }
}

/// The values that a question is asked about are the strings that are there and the
/// floating-point numbers: all of them, in their order.
pub proof fn law_strings_and_reals_are_asked_about(values: Seq<JvmValue>)
    ensures
        queried(values) == values.filter(
            |v: JvmValue|
                match v {
                    JvmValue::Object { tag, id } => tag == 115 && id != 0,
                    JvmValue::Double(_) => true,
                    JvmValue::Float(_) => true,
                    _ => false,
                },
        ),
    decreases values.len(),
{
    reveal(Seq::filter);
    if values.len() > 0 {
        law_strings_and_reals_are_asked_about(values.drop_last());
    }
    assert(queried(values) =~= values.filter(
        |v: JvmValue|
            match v {
                JvmValue::Object { tag, id } => tag == 115 && id != 0,
                JvmValue::Double(_) => true,
                JvmValue::Float(_) => true,
                _ => false,
            },
    ));
}

/// What is asked about a value is asked about that value: the characters of the string with its
/// number, or the text of the number with its bits.
pub proof fn law_the_value_itself_is_asked_about(v: JvmValue)
    ensures
        match query_of(v) {
            Some(NeedView::Command(c)) => {
                &&& v matches JvmValue::Object { tag, id } && tag == 115 && id != 0 && c.data
                    == crate::wire::be_bytes(id as nat, 8)
                &&& c.set == 10
                &&& c.cmd == 1
            },
            Some(NeedView::Real(Real::Double(bits))) => v == JvmValue::Double(bits),
            Some(NeedView::Real(Real::Float(bits))) => v == JvmValue::Float(bits),
            None => match v {
                JvmValue::Object { tag, id } => tag != 115 || id == 0,
                JvmValue::Double(_) => false,
                JvmValue::Float(_) => false,
                _ => true,
            },
        },
{
}

/// Every value shows: one that nothing was asked about by itself, and one that something was asked
/// about by its own answer, the one that came for the same place among those.
pub proof fn law_every_value_shows_by_its_own_answer(
    values: Seq<JvmValue>,
    found: Seq<Seq<char>>,
    i: int,
)
    requires
        0 <= i < values.len(),
    ensures
        displayed(values, found).len() == values.len(),
        displayed(values, found)[i] == if query_of(values[i]) is Some {
            found[queried(values.take(i)).len() as int]
        } else {
            plain_text(values[i])
        },
        query_of(values[i]) is Some ==> queried(values.take(i)).len() < queried(values).len()
            && queried(values)[queried(values.take(i)).len() as int] == values[i],
    decreases values.len(),
{
    let less = values.drop_last();
    lemma_displayed_len(values, found);
    lemma_displayed_len(less, found);
    if i < less.len() {
        law_every_value_shows_by_its_own_answer(less, found, i);
        assert(less.take(i) =~= values.take(i));
        assert(less[i] == values[i]);
    } else {
        assert(values.take(i) =~= less);
    }
}

/// An object that is not there shows as `null`, and any other by its number; a string whose
/// characters could be had shows as those characters between quotes.
pub proof fn law_objects_show(tag: u8, id: u64, reply: Result<Seq<u8>, JdwpError>)
    ensures
        plain_text(JvmValue::Object { tag, id: 0 }) == seq!['n', 'u', 'l', 'l'],
        id != 0 ==> plain_text(JvmValue::Object { tag, id }) == seq!['@'] + hex(id as nat),
        match string_in(reply) {
            Some(s) => string_text(JvmValue::Object { tag, id }, reply) == seq!['"'] + s
                + seq!['"'],
            None => string_text(JvmValue::Object { tag, id }, reply) == plain_text(
                JvmValue::Object { tag, id },
            ),
        },
{
    reveal_strlit("null");
    reveal_strlit("@");
    reveal_strlit("\"");
    assert("null"@ =~= seq!['n', 'u', 'l', 'l']);
    assert("@"@ =~= seq!['@']);
    assert("\""@ =~= seq!['"']);
}

/// Each variable in scope is asked for by its own slot, and shows under its own name with the
/// value that came for it; a value that did not come shows nothing.
pub proof fn law_variables_keep_their_names(scope: Seq<VariableInfoView>, shown: Seq<Seq<char>>, i: int)
    ensures
        slots_of(scope).len() == scope.len(),
        0 <= i < scope.len() ==> slots_of(scope)[i].0 == scope[i].slot && slots_of(scope)[i].1
            == signature_tag(scope[i].signature),
        shown_variables(scope, shown).len() == shown.len(),
        0 <= i < shown.len() ==> shown_variables(scope, shown)[i].name == scope[i].name
            && shown_variables(scope, shown)[i].display_value == shown[i],
{
}

/// Where all lines start behind the code, no line shows.
pub proof fn law_no_line_before_the_first(table: Seq<LineTableEntry>, index: u64)
    requires
        forall|i: int| 0 <= i < table.len() ==> (#[trigger] table[i]).line_code_index > index,
    ensures
        line_at(table, index) is None,
{
    law_line_starts_nearest_before(table, index);
    if let Some(e) = entry_at(table, index) {
        let i = choose|i: int| 0 <= i < table.len() && table[i] == e;
        assert(table[i].line_code_index > index);
    }
}

} // verus!
