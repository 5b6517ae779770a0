//! The messages of the Debug Adapter Protocol.

use vstd::prelude::*;
use crate::json::{Json, JsonView};
use crate::text::owned;

verus! {

/// A request from the editor.
#[derive(Debug)]
pub struct DapRequest<'a> {
    pub seq: u64,
    pub type_: String,
    pub command: String,
    pub arguments: Option<&'a Json>,
}

pub struct DapRequestView {
    pub seq: u64,
    pub type_: Seq<char>,
    pub command: Seq<char>,
    pub arguments: Option<JsonView>,
}

impl View for DapRequest<'_> {
    type V = DapRequestView;

    open spec fn view(&self) -> DapRequestView {
        DapRequestView {
            seq: self.seq,
            type_: self.type_@,
            command: self.command@,
            arguments: match self.arguments {
                None => None,
                Some(j) => Some(j@),
            },
        }
    }
}

/// The request that a JSON object is: with a number, a type and a command; arguments may be
/// missing or null, and other members do not matter.
pub open spec fn request_of(msg: JsonView) -> Option<DapRequestView> {
    match (msg.member("seq"@), msg.member("type"@), msg.member("command"@)) {
        (Some(seq), Some(type_), Some(command)) => match (
            seq.unsigned(),
            type_.text(),
            command.text(),
        ) {
            (Some(seq), Some(type_), Some(command)) => Some(
                DapRequestView {
                    seq,
                    type_,
                    command,
                    arguments: match msg.member("arguments"@) {
                        None => None,
                        Some(JsonView::Null) => None,
                        Some(a) => Some(a),
                    },
                },
            ),
            _ => None,
        },
        _ => None,
    }
}

impl<'a> DapRequest<'a> {
    pub fn read(msg: &'a Json) -> (r: Option<DapRequest<'a>>)
        ensures
            match request_of(msg@) {
                None => r is None,
                Some(q) => r matches Some(x) && x@ == q,
            },
    {
        let seq = msg.get("seq")?.as_unsigned()?;
        let type_ = owned(msg.get("type")?.as_text()?);
        let command = owned(msg.get("command")?.as_text()?);
        let arguments = match msg.get("arguments") {
            None => None,
            Some(Json::Null) => None,
            Some(a) => Some(a),
        };
        Some(DapRequest { seq, type_, command, arguments })
    }

    /// An argument of the request.
    pub open spec fn spec_argument(q: DapRequestView, name: Seq<char>) -> Option<JsonView> {
        match q.arguments {
            None => None,
            Some(a) => a.member(name),
        }
    }

    pub fn argument(&self, name: &str) -> (r: Option<&'a Json>)
        ensures
            match Self::spec_argument(self@, name@) {
                None => r is None,
                Some(v) => r matches Some(j) && j@ == v,
            },
    {
        match self.arguments {
            None => None,
            Some(a) => a.get(name),
        }
    }
}

/// An answer to a request.
#[derive(Debug)]
pub struct DapResponse {
    pub seq: u64,
    pub type_: String,
    pub request_seq: u64,
    pub success: bool,
    pub command: String,
    pub body: Option<Json>,
    pub message: Option<String>,
}

pub struct DapResponseView {
    pub seq: u64,
    pub type_: Seq<char>,
    pub request_seq: u64,
    pub success: bool,
    pub command: Seq<char>,
    pub body: Option<JsonView>,
    pub message: Option<Seq<char>>,
}

impl View for DapResponse {
    type V = DapResponseView;

    open spec fn view(&self) -> DapResponseView {
        DapResponseView {
            seq: self.seq,
            type_: self.type_@,
            request_seq: self.request_seq,
            success: self.success,
            command: self.command@,
            body: match self.body {
                None => None,
                Some(j) => Some(j@),
            },
            message: match self.message {
                None => None,
                Some(s) => Some(s@),
            },
        }
    }
}

impl DapResponseView {
    pub open spec fn ok(
        seq: u64,
        request_seq: u64,
        command: Seq<char>,
        body: Option<JsonView>,
    ) -> DapResponseView {
        DapResponseView {
            seq,
            type_: "response"@,
            request_seq,
            success: true,
            command,
            body,
            message: None,
        }
    }

    pub open spec fn err(
        seq: u64,
        request_seq: u64,
        command: Seq<char>,
        message: Seq<char>,
    ) -> DapResponseView {
        DapResponseView {
            seq,
            type_: "response"@,
            request_seq,
            success: false,
            command,
            body: None,
            message: Some(message),
        }
    }

    /// The response on the wire: what is not there is left out.
    pub open spec fn json(self) -> JsonView {
        let base = JsonView::empty().with("seq"@, JsonView::Int(self.seq as int)).with(
            "type"@,
            JsonView::Text(self.type_),
        ).with("requestSeq"@, JsonView::Int(self.request_seq as int)).with(
            "success"@,
            JsonView::Bool(self.success),
        ).with("command"@, JsonView::Text(self.command));
        let bodied = match self.body {
            None => base,
            Some(b) => base.with("body"@, b),
        };
        match self.message {
            None => bodied,
            Some(m) => bodied.with("message"@, JsonView::Text(m)),
        }
    }
}

impl DapResponse {
    pub fn ok(seq: u64, request_seq: u64, command: &str, body: Option<Json>) -> (r: DapResponse)
        ensures
            r@ == DapResponseView::ok(
                seq,
                request_seq,
                command@,
                match body {
                    None => None,
                    Some(j) => Some(j@),
                },
            ),
    {
        DapResponse {
            seq,
            type_: owned("response"),
            request_seq,
            success: true,
            command: owned(command),
            body,
            message: None,
        }
    }

    pub fn err(seq: u64, request_seq: u64, command: &str, message: &str) -> (r: DapResponse)
        ensures
            r@ == DapResponseView::err(seq, request_seq, command@, message@),
    {
        DapResponse {
            seq,
            type_: owned("response"),
            request_seq,
            success: false,
            command: owned(command),
            body: None,
            message: Some(owned(message)),
        }
    }

    pub fn to_json(self) -> (j: Json)
        ensures
            j@ == self@.json(),
    {
        let base = Json::object().with("seq", Json::Unsigned(self.seq)).with(
            "type",
            Json::Text(self.type_),
        ).with("requestSeq", Json::Unsigned(self.request_seq)).with(
            "success",
            Json::Bool(self.success),
        ).with("command", Json::Text(self.command));
        let bodied = match self.body {
            None => base,
            Some(b) => base.with("body", b),
        };
        match self.message {
            None => bodied,
            Some(m) => bodied.with("message", Json::Text(m)),
        }
    }
}

/// Something that the editor is told without having asked.
#[derive(Debug)]
pub struct DapEvent {
    pub seq: u64,
    pub type_: String,
    pub event: String,
    pub body: Option<Json>,
}

pub struct DapEventView {
    pub seq: u64,
    pub type_: Seq<char>,
    pub event: Seq<char>,
    pub body: Option<JsonView>,
}

impl View for DapEvent {
    type V = DapEventView;

    open spec fn view(&self) -> DapEventView {
        DapEventView {
            seq: self.seq,
            type_: self.type_@,
            event: self.event@,
            body: match self.body {
                None => None,
                Some(j) => Some(j@),
            },
        }
    }
}

impl DapEventView {
    pub open spec fn new(seq: u64, event: Seq<char>, body: Option<JsonView>) -> DapEventView {
        DapEventView { seq, type_: "event"@, event, body }
    }

    /// The event on the wire: a body that is not there is left out.
    pub open spec fn json(self) -> JsonView {
        let base = JsonView::empty().with("seq"@, JsonView::Int(self.seq as int)).with(
            "type"@,
            JsonView::Text(self.type_),
        ).with("event"@, JsonView::Text(self.event));
        match self.body {
            None => base,
            Some(b) => base.with("body"@, b),
        }
    }
}

impl DapEvent {
    pub fn new(seq: u64, event: &str, body: Option<Json>) -> (r: DapEvent)
        ensures
            r@ == DapEventView::new(
                seq,
                event@,
                match body {
                    None => None,
                    Some(j) => Some(j@),
                },
            ),
    {
        DapEvent { seq, type_: owned("event"), event: owned(event), body }
    }

    pub fn to_json(self) -> (j: Json)
        ensures
            j@ == self@.json(),
    {
        let base = Json::object().with("seq", Json::Unsigned(self.seq)).with(
            "type",
            Json::Text(self.type_),
        ).with("event", Json::Text(self.event));
        match self.body {
            None => base,
            Some(b) => base.with("body", b),
        }
    }
}

/// What the server can do, as it tells the editor in answer to `initialize`.
#[derive(Debug, Clone, Copy, PartialEq, Eq, Structural)]
pub struct Capabilities {
    pub supports_configuration_done_request: bool,
}

impl Default for Capabilities {
    fn default() -> (c: Capabilities)
        ensures
            c == (Capabilities { supports_configuration_done_request: false }),
    {
        Capabilities { supports_configuration_done_request: false }
    }
}

impl Capabilities {
    pub open spec fn json(self) -> JsonView {
        JsonView::empty().with(
            "supportsConfigurationDoneRequest"@,
            JsonView::Bool(self.supports_configuration_done_request),
        )
    }

    pub fn to_json(&self) -> (j: Json)
        ensures
            j@ == self.json(),
    {
        Json::object().with(
            "supportsConfigurationDoneRequest",
            Json::Bool(self.supports_configuration_done_request),
        )
    }
}

} // verus!
