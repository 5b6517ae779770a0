//! Finding out about one frame of a stopped thread.

use vstd::prelude::*;
use crate::jdwp::client::{about, about_method, slot_bytes, CommandView, JdwpClient};
use crate::jdwp::read::JdwpError;
use crate::jdwp::value::JvmValue;
use crate::jdwp::{FrameInfo, MethodInfo, MethodInfoView, VariableInfo, VariableInfoView};
use crate::list::views;
use crate::server::gather::{
    displayed, find_line, find_queried, find_scope, find_slots, line_at, need_is, queried, query_of,
    read_text, read_values, read_variables, scope_at, show_plain, show_variables, shown_variables,
    slots_of, string_in, string_text, value_need, values_in, variables_in, Need, NeedView,
};
use crate::server::lines::{methods_in, read_methods, read_table, table_in};
use crate::server::snapshot::{SnapshotVariable, VariableView};
use crate::server::{reply_view, Reply};
use crate::text::{append, owned, texts};
use crate::wire::be_bytes;

verus! {

/// What is known of a frame. What is not known yet is asked for in the order of the fields.
pub struct FrameReader {
    pub thread_id: u64,
    pub frame: FrameInfo,
    /// Whether the class has to be asked about.
    pub new_class: bool,
    pub signature: Option<String>,
    pub methods: Option<Vec<MethodInfo>>,
    /// The line where the frame stands, which may not be known to the JVM.
    pub line: Option<Option<u32>>,
    /// The variables in scope.
    pub scope: Option<Vec<VariableInfo>>,
    /// Their values; there may be fewer.
    pub values: Option<Vec<JvmValue>>,
    /// Those of the values that something has to be found out for.
    pub queried: Vec<JvmValue>,
    /// What has been found out for the first of them.
    pub found: Vec<String>,
}

#[verifier::ext_equal]
pub struct FrameReaderView {
    pub thread_id: u64,
    pub frame: FrameInfo,
    pub new_class: bool,
    pub signature: Option<Seq<char>>,
    pub methods: Option<Seq<MethodInfoView>>,
    pub line: Option<Option<u32>>,
    pub scope: Option<Seq<VariableInfoView>>,
    pub values: Option<Seq<JvmValue>>,
    pub queried: Seq<JvmValue>,
    pub found: Seq<Seq<char>>,
}

impl View for FrameReader {
    type V = FrameReaderView;

    open spec fn view(&self) -> FrameReaderView {
        FrameReaderView {
            thread_id: self.thread_id,
            frame: self.frame,
            new_class: self.new_class,
            signature: match self.signature {
                None => None,
                Some(s) => Some(s@),
            },
            methods: match self.methods {
                None => None,
                Some(m) => Some(views(m@)),
            },
            line: self.line,
            scope: match self.scope {
                None => None,
                Some(v) => Some(views(v@)),
            },
            values: match self.values {
                None => None,
                Some(v) => Some(v@),
            },
            queried: self.queried@,
            found: texts(self.found@),
        }
    }
}

/// The command that asks for the values of variables.
pub open spec fn values_request(thread_id: u64, frame_id: u64, scope: Seq<VariableInfoView>) -> CommandView {
    CommandView {
        set: 16,
        cmd: 1,
        data: be_bytes(thread_id as nat, 8) + be_bytes(frame_id as nat, 8) + be_bytes(
            slots_of(scope).len(),
            4,
        ) + slot_bytes(slots_of(scope)),
    }
}

/// As many values as there are variables for them.
pub open spec fn as_many(values: Seq<JvmValue>, scope: Seq<VariableInfoView>) -> Seq<JvmValue> {
    if values.len() > scope.len() {
        values.take(scope.len() as int)
    } else {
        values
    }
}

impl FrameReaderView {
    pub open spec fn new(thread_id: u64, frame: FrameInfo, new_class: bool) -> FrameReaderView {
        FrameReaderView {
            thread_id,
            frame,
            new_class,
            signature: None,
            methods: None,
            line: None,
            scope: None,
            values: None,
            queried: seq![],
            found: seq![],
        }
    }

    /// What is to be found out next; nothing where the frame is known.
    pub open spec fn asks(self) -> Option<NeedView> {
        let l = self.frame.location;
        if self.new_class && self.signature is None {
            Some(NeedView::Command(about(2, 1, l.class_id)))
        } else if self.new_class && self.methods is None {
            Some(NeedView::Command(about(2, 15, l.class_id)))
        } else if self.line is None {
            Some(NeedView::Command(about_method(1, l.class_id, l.method_id)))
        } else {
            match self.scope {
                None => Some(NeedView::Command(about_method(5, l.class_id, l.method_id))),
                Some(scope) => if scope.len() > 0 && self.values is None {
                    Some(
                        NeedView::Command(
                            values_request(self.thread_id, self.frame.frame_id, scope),
                        ),
                    )
                } else if self.found.len() < self.queried.len() {
                    query_of(self.queried[self.found.len() as int])
                } else {
                    None
                },
            }
        }
    }

    /// What is known once the command is answered. A signature that could not be had counts as
    /// empty, and what else could not be had as if there were none.
    pub open spec fn told(self, reply: Result<Seq<u8>, JdwpError>) -> FrameReaderView {
        let index = self.frame.location.index;
        if self.new_class && self.signature is None {
            FrameReaderView {
                signature: Some(
                    match string_in(reply) {
                        Some(s) => s,
                        None => seq![],
                    },
                ),
                ..self
            }
        } else if self.new_class && self.methods is None {
            FrameReaderView { methods: Some(methods_in(reply)), ..self }
        } else if self.line is None {
            FrameReaderView { line: Some(line_at(table_in(reply), index)), ..self }
        } else {
            match self.scope {
                None => FrameReaderView {
                    scope: Some(scope_at(variables_in(reply), index)),
                    ..self
                },
                Some(scope) => if scope.len() > 0 && self.values is None {
                    let values = as_many(values_in(reply), scope);
                    FrameReaderView { values: Some(values), queried: queried(values), ..self }
                } else if self.found.len() < self.queried.len() && (self.asks() matches Some(
                    NeedView::Command(_),
                )) {
                    FrameReaderView {
                        found: self.found.push(
                            string_text(self.queried[self.found.len() as int], reply),
                        ),
                        ..self
                    }
                } else {
                    self
                },
            }
        }
    }

    /// What is known once a number's text is found.
    pub open spec fn told_text(self, text: Seq<char>) -> FrameReaderView {
        if self.asks() matches Some(NeedView::Real(_)) {
            FrameReaderView { found: self.found.push(text), ..self }
        } else {
            self
        }
    }

    /// The variables of the frame, once it is known.
    pub open spec fn variables(self) -> Seq<VariableView> {
        match (self.scope, self.values) {
            (Some(scope), Some(values)) => shown_variables(scope, displayed(values, self.found)),
            _ => seq![],
        }
    }

    /// How many of the fields that are to be asked for are not known.
    pub open spec fn unknown(self) -> nat {
        (if self.new_class && self.signature is None {
            1nat
        } else {
            0
        }) + (if self.new_class && self.methods is None {
            1nat
        } else {
            0
        }) + (if self.line is None {
            1nat
        } else {
            0
        }) + (if self.scope is None {
            1nat
        } else {
            0
        }) + (if self.values is None {
            1nat
        } else {
            0
        })
    }

    /// How many values something has to be found out for yet.
    pub open spec fn values_left(self) -> nat {
        if self.found.len() < self.queried.len() {
            (self.queried.len() - self.found.len()) as nat
        } else {
            0
        }
    }

    /// What always holds: nothing is known before its turn, and what has to be found out is
    /// what the values call for.
    pub open spec fn inv(self) -> bool {
        &&& self.found.len() <= self.queried.len()
        &&& self.queried == match self.values {
            None => seq![],
            Some(values) => queried(values),
        }
        &&& self.values matches Some(values) ==> self.scope is Some && values.len()
            <= self.scope->0.len()
        &&& self.scope is Some ==> self.line is Some
    }
}

proof fn lemma_queried_need(values: Seq<JvmValue>)
    ensures
        forall|i: int|
            0 <= i < queried(values).len() ==> query_of(#[trigger] queried(values)[i]) is Some,
    decreases values.len(),
{
    if values.len() > 0 {
        let less = values.drop_last();
        lemma_queried_need(less);
        assert forall|i: int| 0 <= i < queried(values).len() implies query_of(
            #[trigger] queried(values)[i],
        ) is Some by {
            if i < queried(less).len() {
                assert(queried(values)[i] == queried(less)[i]);
            }
        }
    }
}

/// Each answer keeps what always holds, and brings the reader nearer to its end, so that its
/// questions come to one.
pub proof fn law_frame_reader_comes_to_an_end(
    v: FrameReaderView,
    reply: Result<Seq<u8>, JdwpError>,
    text: Seq<char>,
)
    requires
        v.inv(),
    ensures
        v.told(reply).inv(),
        v.told_text(text).inv(),
        (v.asks() matches Some(NeedView::Command(_))) ==> decreases_to!(
            v.unknown(), v.values_left() => v.told(reply).unknown(), v.told(reply).values_left()
        ),
        (v.asks() matches Some(NeedView::Real(_))) ==> decreases_to!(
            v.unknown(), v.values_left() =>
            v.told_text(text).unknown(), v.told_text(text).values_left()
        ),
{
    if v.values is Some {
        lemma_queried_need(v.values->0);
    }
    if v.asks() matches Some(NeedView::Command(_)) {
        if v.new_class && v.signature is None {
        } else if v.new_class && v.methods is None {
        } else if v.line is None {
        } else if v.scope is None {
        } else if v.scope->0.len() > 0 && v.values is None {
        } else {
            assert(v.told(reply).found.len() == v.found.len() + 1);
        }
    }
}

impl FrameReader {
    pub fn new(thread_id: u64, frame: FrameInfo, new_class: bool) -> (r: FrameReader)
        ensures
            r@ == FrameReaderView::new(thread_id, frame, new_class),
            r@.inv(),
    {
        let r = FrameReader {
            thread_id,
            frame,
            new_class,
            signature: None,
            methods: None,
            line: None,
            scope: None,
            values: None,
            queried: Vec::new(),
            found: Vec::new(),
        };
        assert(r@ =~= FrameReaderView::new(thread_id, frame, new_class));
        r
    }

    pub fn next(&self) -> (r: Option<Need>)
        ensures
            need_is(r, self@.asks()),
    {
        let l = self.frame.location;
        if self.new_class && self.signature.is_none() {
            return Some(Need::Command(JdwpClient::ref_type_name(l.class_id)));
        }
        if self.new_class && self.methods.is_none() {
            return Some(Need::Command(JdwpClient::ref_type_methods(l.class_id)));
        }
        if self.line.is_none() {
            return Some(Need::Command(JdwpClient::method_line_table(l.class_id, l.method_id)));
        }
        match &self.scope {
            None => Some(
                Need::Command(JdwpClient::method_variable_table(l.class_id, l.method_id)),
            ),
            Some(scope) => if scope.len() > 0 && self.values.is_none() {
                let slots = find_slots(scope);
                Some(
                    Need::Command(
                        JdwpClient::stack_frame_get_values(
                            self.thread_id,
                            self.frame.frame_id,
                            slots.as_slice(),
                        ),
                    ),
                )
            } else if self.found.len() < self.queried.len() {
                value_need(self.queried[self.found.len()])
            } else {
                None
            },
        }
    }

    pub fn supply(&mut self, reply: &Reply)
        requires
            old(self)@.inv(),
        ensures
            final(self)@ == old(self)@.told(reply_view(*reply)),
            final(self)@.inv(),
    {
        let ghost before = self@;
        let ghost after = before.told(reply_view(*reply));
        proof {
            law_frame_reader_comes_to_an_end(before, reply_view(*reply), seq![]);
        }
        let index = self.frame.location.index;
        if self.new_class && self.signature.is_none() {
            let signature = match read_text(reply) {
                Some(s) => s,
                None => {
                    let s = String::new();
                    assert(s@ =~= seq![]);
                    s
                },
            };
            self.signature = Some(signature);
            assert(self@ =~= after);
            return;
        }
        if self.new_class && self.methods.is_none() {
            self.methods = Some(read_methods(reply));
            assert(self@ =~= after);
            return;
        }
        if self.line.is_none() {
            let table = read_table(reply);
            self.line = Some(find_line(table.as_slice(), index));
            assert(self@ =~= after);
            return;
        }
        let known: Option<usize> = match &self.scope {
            None => None,
            Some(scope) => Some(scope.len()),
        };
        match known {
            None => {
                self.scope = Some(find_scope(read_variables(reply), index));
                assert(self@ =~= after);
            },
            Some(n) => {
                if n > 0 && self.values.is_none() {
                    let mut values = read_values(reply);
                    if values.len() > n {
                        values.truncate(n);
                    }
                    assert(values@ =~= as_many(values_in(reply_view(*reply)), before.scope->0));
                    self.queried = find_queried(&values);
                    self.values = Some(values);
                    assert(self@ =~= after);
                } else if self.found.len() < self.queried.len() {
                    let value = self.queried[self.found.len()];
                    if let Some(Need::Command(_)) = value_need(value) {
                        let text = match read_text(reply) {
                            Some(s) => {
                                let mut t = owned("\"");
                                append(&mut t, s.as_str());
                                append(&mut t, "\"");
                                t
                            },
                            None => show_plain(value),
                        };
                        let ghost found = texts(self.found@);
                        self.found.push(text);
                        assert(texts(self.found@) =~= found.push(text@));
                        assert(self@ =~= after);
                    }
                }
            },
        }
    }

    pub fn supply_text(&mut self, text: String)
        requires
            old(self)@.inv(),
        ensures
            final(self)@ == old(self)@.told_text(text@),
            final(self)@.inv(),
    {
        let ghost before = self@;
        proof {
            law_frame_reader_comes_to_an_end(before, Err(JdwpError::WriteClosed), text@);
        }
        if let Some(Need::Real(_)) = self.next() {
            let ghost found = texts(self.found@);
            self.found.push(text);
            assert(texts(self.found@) =~= found.push(text@));
            assert(self@ =~= before.told_text(text@));
        }
    }

    /// The variables of the frame, once it is known.
    pub fn take_variables(&self) -> (v: Vec<SnapshotVariable>)
        requires
            self@.inv(),
            self@.asks() is None,
        ensures
            views(v@) == self@.variables(),
    {
        proof {
            if self@.values is Some {
                lemma_queried_need(self@.values->0);
            }
        }
        if let Some(scope) = &self.scope {
            if let Some(values) = &self.values {
                return show_variables(scope, values, &self.found);
            }
        }
        let v: Vec<SnapshotVariable> = Vec::new();
        assert(views(v@) =~= seq![]);
        v
    }
}

} // verus!
