//! The error object that the query operations hand to their JSON-RPC caller.

use crate::atf::error::{AtfError, AtfErrorView};
use crate::atf::event::text_of;
use crate::handlers::events::EventsGetHandler;
use crate::handlers::spans::SpansListHandler;
use crate::handlers::trace_info::TraceInfoHandler;
use crate::text::str_eq;
use vstd::prelude::*;
use vstd::string::*;

verus! {

/// Code of a request whose parameters are not acceptable.
pub const INVALID_PARAMS: i32 = -32602;

/// Code of a request that names a session which cannot be found.
pub const TRACE_NOT_FOUND: i32 = -32000;

/// Code of a request that failed inside the engine.
pub const INTERNAL_ERROR: i32 = -32603;

/// A JSON-RPC error: a code, a fixed message for the code, and a detail for
/// the reader.
#[derive(Debug, Clone, PartialEq)]
pub struct JsonRpcError {
    pub code: i32,
    pub message: String,
    pub data: Option<String>,
}

/// Mathematical model of a [`JsonRpcError`].
pub struct JsonRpcErrorView {
    pub code: i32,
    pub message: Seq<char>,
    pub data: Option<Seq<char>>,
}

impl View for JsonRpcError {
    type V = JsonRpcErrorView;

    open spec fn view(&self) -> JsonRpcErrorView {
        JsonRpcErrorView { code: self.code, message: self.message@, data: text_of(self.data) }
    }
}

impl JsonRpcErrorView {
    /// The error for unacceptable parameters, with `detail`.
    pub open spec fn invalid_params(detail: Seq<char>) -> JsonRpcErrorView {
        JsonRpcErrorView { code: INVALID_PARAMS, message: "Invalid params"@, data: Some(detail) }
    }

    /// The error for a session that cannot be found.
    pub open spec fn trace_not_found() -> JsonRpcErrorView {
        JsonRpcErrorView { code: TRACE_NOT_FOUND, message: "Trace not found"@, data: None }
    }

    /// The error for a failure inside the engine, with `detail`.
    pub open spec fn internal(detail: Seq<char>) -> JsonRpcErrorView {
        JsonRpcErrorView { code: INTERNAL_ERROR, message: "Internal error"@, data: Some(detail) }
    }
}

impl JsonRpcError {
    /// The error for unacceptable parameters.
    pub fn invalid_params(detail: &str) -> (e: Self)
        ensures
            e@ == JsonRpcErrorView::invalid_params(detail@),
    {
        JsonRpcError {
            code: INVALID_PARAMS,
            message: String::from_str("Invalid params"),
            data: Some(String::from_str(detail)),
        }
    }

    /// The error for a session that cannot be found.
    pub fn trace_not_found() -> (e: Self)
        ensures
            e@ == JsonRpcErrorView::trace_not_found(),
    {
        JsonRpcError {
            code: TRACE_NOT_FOUND,
            message: String::from_str("Trace not found"),
            data: None,
        }
    }

    /// The error for a failure inside the engine.
    pub fn internal(detail: &str) -> (e: Self)
        ensures
            e@ == JsonRpcErrorView::internal(detail@),
    {
        JsonRpcError {
            code: INTERNAL_ERROR,
            message: String::from_str("Internal error"),
            data: Some(String::from_str(detail)),
        }
    }
}

/// How a failure to load the session is reported: a missing session or file
/// as "trace not found", anything else as an internal error that says what
/// failed.
pub open spec fn load_failure(err: AtfErrorView) -> JsonRpcErrorView {
    if err.is_not_found() {
        JsonRpcErrorView::trace_not_found()
    } else {
        JsonRpcErrorView::internal("failed to load trace: "@ + err.message())
    }
}

/// Reports a failure to load a session.
pub fn report_load_failure(err: AtfError) -> (e: JsonRpcError)
    ensures
        e@ == load_failure(err@),
{
    match err {
        AtfError::TraceNotFound(_) | AtfError::ManifestNotFound(_) | AtfError::EventsNotFound(_) => {
            JsonRpcError::trace_not_found()
        },
        other => {
            let detail = String::from_str("failed to load trace: ").concat(
                other.describe().as_str(),
            );
            JsonRpcError::internal(detail.as_str())
        },
    }
}

/// One of the three query operations.
#[derive(Debug, Clone, Copy, PartialEq, Eq, Structural)]
pub enum Method {
    EventsGet,
    SpansList,
    TraceInfo,
}

impl Method {
    /// The name under which the operation is called.
    pub open spec fn name(self) -> Seq<char> {
        match self {
            Method::EventsGet => "events.get"@,
            Method::SpansList => "spans.list"@,
            Method::TraceInfo => "trace.info"@,
        }
    }

    /// The operation of the name `name`, if it is the name of one.
    pub open spec fn named(name: Seq<char>) -> Option<Method> {
        if name == "events.get"@ {
            Some(Method::EventsGet)
        } else if name == "spans.list"@ {
            Some(Method::SpansList)
        } else if name == "trace.info"@ {
            Some(Method::TraceInfo)
        } else {
            None
        }
    }

    /// The name under which the operation is called.
    pub fn as_str(&self) -> (name: &'static str)
        ensures
            name@ == self.name(),
    {
        match self {
            Method::EventsGet => "events.get",
            Method::SpansList => "spans.list",
            Method::TraceInfo => "trace.info",
        }
    }

    /// Finds the operation of the name `name`.
    pub fn from_name(name: &str) -> (method: Option<Method>)
        ensures
            method == Method::named(name@),
    {
        if str_eq(name, "events.get") {
            Some(Method::EventsGet)
        } else if str_eq(name, "spans.list") {
            Some(Method::SpansList)
        } else if str_eq(name, "trace.info") {
            Some(Method::TraceInfo)
        } else {
            None
        }
    }
}

/// The operations that a server offers, each under its name.
pub struct JsonRpcServer {
    pub events_get: Option<EventsGetHandler>,
    pub spans_list: Option<SpansListHandler>,
    pub trace_info: Option<TraceInfoHandler>,
}

impl JsonRpcServer {
    /// Whether the server offers `method`.
    pub open spec fn offers(&self, method: Method) -> bool {
        match method {
            Method::EventsGet => self.events_get is Some,
            Method::SpansList => self.spans_list is Some,
            Method::TraceInfo => self.trace_info is Some,
        }
    }

    /// A server that offers nothing yet.
    pub fn new() -> (server: Self)
        ensures
            forall|m: Method| !server.offers(m),
    {
        JsonRpcServer { events_get: None, spans_list: None, trace_info: None }
    }

    /// Whether an operation is registered under the name `name`.
    pub fn contains(&self, name: &str) -> (r: bool)
        ensures
            r == (Method::named(name@) matches Some(m) && self.offers(m)),
    {
        match Method::from_name(name) {
            Some(Method::EventsGet) => self.events_get.is_some(),
            Some(Method::SpansList) => self.spans_list.is_some(),
            Some(Method::TraceInfo) => self.trace_info.is_some(),
            None => false,
        }
    }
}

/// Each operation is called under a name of its own.
pub proof fn lemma_method_names(method: Method)
    ensures
        Method::named(method.name()) == Some(method),
{
    reveal_strlit("events.get");
    reveal_strlit("spans.list");
    reveal_strlit("trace.info");
    assert("events.get"@[0] == 'e' && "spans.list"@[0] == 's' && "trace.info"@[0] == 't');
}

} // verus!
