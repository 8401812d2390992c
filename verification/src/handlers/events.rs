//! `events.get`: the events of a session, filtered, ordered and paged.

use crate::atf::error::AtfError;
use crate::atf::reader::{load_session, session_events, SessionRead};
use crate::atf::event::{
    events_view, text_of, EventView, KindView, ParsedEvent, ParsedEventKind,
};
use crate::handlers::membership::{contains_id, contains_name, names_include};
use crate::handlers::paging::{
    has_more, lemma_pagination, more_after, nth_page, page, page_bounds, page_end, page_start,
    pages_through,
};
use crate::server::{
    load_failure, report_load_failure, JsonRpcError, JsonRpcErrorView, JsonRpcServer, Method,
};
use crate::sorting::{
    ascending, lemma_filter_map, lemma_stable_sort_map, lemma_stable_sort_sorts, sort_stable,
    stable_sort, total_preorder, Precedence,
};
use crate::text::{child_path, child_path_text, is_blank, str_eq, str_is_blank, trim, trimmed};
use vstd::prelude::*;
use vstd::string::*;

verus! {

/// The limit of a request that names none.
pub const DEFAULT_LIMIT: u64 = 1000;

/// The largest limit a request may name.
pub const MAX_LIMIT: u64 = 10_000;

/// The limit of a request that names none.
pub fn default_limit() -> (limit: u64)
    ensures
        limit == DEFAULT_LIMIT,
{
    DEFAULT_LIMIT
}

/// The value of a switch that is on unless the request turns it off.
pub fn default_true() -> (on: bool)
    ensures
        on,
{
    true
}

/// A kind of event that a filter can ask for.
#[derive(Debug, Clone, Copy, PartialEq, Eq, Hash, Structural)]
pub enum EventTypeFilter {
    TraceStart,
    TraceEnd,
    FunctionCall,
    FunctionReturn,
    SignalDelivery,
    Unknown,
}

impl EventTypeFilter {
    /// Whether events of kind `kind` are what the filter asks for.
    pub open spec fn selects(self, kind: KindView) -> bool {
        match self {
            EventTypeFilter::TraceStart => kind is TraceStart,
            EventTypeFilter::TraceEnd => kind is TraceEnd,
            EventTypeFilter::FunctionCall => kind is FunctionCall,
            EventTypeFilter::FunctionReturn => kind is FunctionReturn,
            EventTypeFilter::SignalDelivery => kind is SignalDelivery,
            EventTypeFilter::Unknown => kind is Unknown,
        }
    }

    /// The name by which a request asks for the kind.
    pub open spec fn name(self) -> Seq<char> {
        match self {
            EventTypeFilter::TraceStart => "traceStart"@,
            EventTypeFilter::TraceEnd => "traceEnd"@,
            EventTypeFilter::FunctionCall => "functionCall"@,
            EventTypeFilter::FunctionReturn => "functionReturn"@,
            EventTypeFilter::SignalDelivery => "signalDelivery"@,
            EventTypeFilter::Unknown => "unknown"@,
        }
    }

    /// The kind that a request asks for by the name `name`, if it is the
    /// name of one.
    pub open spec fn named(name: Seq<char>) -> Option<EventTypeFilter> {
        if name == "traceStart"@ {
            Some(EventTypeFilter::TraceStart)
        } else if name == "traceEnd"@ {
            Some(EventTypeFilter::TraceEnd)
        } else if name == "functionCall"@ {
            Some(EventTypeFilter::FunctionCall)
        } else if name == "functionReturn"@ {
            Some(EventTypeFilter::FunctionReturn)
        } else if name == "signalDelivery"@ {
            Some(EventTypeFilter::SignalDelivery)
        } else if name == "unknown"@ {
            Some(EventTypeFilter::Unknown)
        } else {
            None
        }
    }

    /// The name by which a request asks for the kind.
    pub fn as_str(&self) -> (name: &'static str)
        ensures
            name@ == self.name(),
    {
        match self {
            EventTypeFilter::TraceStart => "traceStart",
            EventTypeFilter::TraceEnd => "traceEnd",
            EventTypeFilter::FunctionCall => "functionCall",
            EventTypeFilter::FunctionReturn => "functionReturn",
            EventTypeFilter::SignalDelivery => "signalDelivery",
            EventTypeFilter::Unknown => "unknown",
        }
    }

    /// Finds the kind that a request asks for by the name `name`.
    pub fn from_name(name: &str) -> (kind: Option<EventTypeFilter>)
        ensures
            kind == Self::named(name@),
    {
        if str_eq(name, "traceStart") {
            Some(EventTypeFilter::TraceStart)
        } else if str_eq(name, "traceEnd") {
            Some(EventTypeFilter::TraceEnd)
        } else if str_eq(name, "functionCall") {
            Some(EventTypeFilter::FunctionCall)
        } else if str_eq(name, "functionReturn") {
            Some(EventTypeFilter::FunctionReturn)
        } else if str_eq(name, "signalDelivery") {
            Some(EventTypeFilter::SignalDelivery)
        } else if str_eq(name, "unknown") {
            Some(EventTypeFilter::Unknown)
        } else {
            None
        }
    }

    /// Decides whether events of kind `kind` are what the filter asks for.
    pub fn matches(&self, kind: &ParsedEventKind) -> (r: bool)
        ensures
            r == self.selects(kind@),
    {
        match (self, kind) {
            (EventTypeFilter::TraceStart, ParsedEventKind::TraceStart) => true,
            (EventTypeFilter::TraceEnd, ParsedEventKind::TraceEnd) => true,
            (EventTypeFilter::FunctionCall, ParsedEventKind::FunctionCall { .. }) => true,
            (EventTypeFilter::FunctionReturn, ParsedEventKind::FunctionReturn { .. }) => true,
            (EventTypeFilter::SignalDelivery, ParsedEventKind::SignalDelivery { .. }) => true,
            (EventTypeFilter::Unknown, ParsedEventKind::Unknown) => true,
            _ => false,
        }
    }
}

/// One of `types` asks for events of kind `kind`.
pub open spec fn types_select(types: Seq<EventTypeFilter>, kind: KindView) -> bool {
    exists|i: int| 0 <= i < types.len() && (#[trigger] types[i]).selects(kind)
}

/// Decides [`types_select`].
pub fn any_type_matches(types: &Vec<EventTypeFilter>, kind: &ParsedEventKind) -> (r: bool)
    ensures
        r == types_select(types@, kind@),
{
    let mut i: usize = 0;
    while i < types.len()
        invariant
            i <= types.len(),
            forall|k: int| 0 <= k < i ==> !(#[trigger] types@[k]).selects(kind@),
        decreases types.len() - i,
    {
        if types[i].matches(kind) {
            return true;
        }
        i += 1;
    }
    false
}

/// What an event must meet to be returned. A bound that is `None` admits all.
#[derive(Debug, Clone)]
pub struct EventFilters {
    pub time_start_ns: Option<u64>,
    pub time_end_ns: Option<u64>,
    pub thread_ids: Option<Vec<u32>>,
    pub event_types: Option<Vec<EventTypeFilter>>,
    pub function_names: Option<Vec<String>>,
}

impl Default for EventFilters {
    fn default() -> (f: Self)
        ensures
            f == Self::none(),
    {
        EventFilters {
            time_start_ns: None,
            time_end_ns: None,
            thread_ids: None,
            event_types: None,
            function_names: None,
        }
    }
}

impl EventFilters {
    /// The filters that admit every event.
    pub open spec fn none() -> EventFilters {
        EventFilters {
            time_start_ns: None,
            time_end_ns: None,
            thread_ids: None,
            event_types: None,
            function_names: None,
        }
    }

    /// Whether `event` is returned: its time lies in the closed window, and
    /// its thread, its kind and its function symbol are among those asked for
    /// (an event without a symbol is none of the names).
    pub open spec fn admits(self, event: EventView) -> bool {
        &&& self.time_start_ns matches Some(start) ==> event.timestamp_ns >= start
        &&& self.time_end_ns matches Some(end) ==> event.timestamp_ns <= end
        &&& self.thread_ids matches Some(ids) ==> ids@.contains(event.thread_id)
        &&& self.event_types matches Some(types) ==> types_select(types@, event.kind)
        &&& self.function_names matches Some(names) ==> (
        event.kind.function_symbol() matches Some(name) && names_include(names@, name))
    }
}

/// The key by which events are ordered.
#[derive(Debug, Clone, Copy, PartialEq, Eq, Structural)]
pub enum EventOrderBy {
    Timestamp,
    ThreadId,
}

impl Default for EventOrderBy {
    fn default() -> (o: Self)
        ensures
            o == EventOrderBy::Timestamp,
    {
        EventOrderBy::Timestamp
    }
}

impl EventOrderBy {
    /// The key that a request asks for by the name `name`, if it is the name
    /// of one.
    pub open spec fn named(name: Seq<char>) -> Option<EventOrderBy> {
        if name == "timestamp"@ {
            Some(EventOrderBy::Timestamp)
        } else if name == "threadId"@ {
            Some(EventOrderBy::ThreadId)
        } else {
            None
        }
    }

    /// Finds the key that a request asks for by the name `name`.
    pub fn from_name(name: &str) -> (key: Option<EventOrderBy>)
        ensures
            key == Self::named(name@),
    {
        if str_eq(name, "timestamp") {
            Some(EventOrderBy::Timestamp)
        } else if str_eq(name, "threadId") {
            Some(EventOrderBy::ThreadId)
        } else {
            None
        }
    }

    /// The key of `event`.
    pub open spec fn key(self, event: EventView) -> int {
        match self {
            EventOrderBy::Timestamp => event.timestamp_ns as int,
            EventOrderBy::ThreadId => event.thread_id as int,
        }
    }
}

impl Precedence<ParsedEvent> for EventOrderBy {
    open spec fn le(&self, a: ParsedEvent, b: ParsedEvent) -> bool {
        self.key(a@) <= self.key(b@)
    }

    fn decide(&self, a: &ParsedEvent, b: &ParsedEvent) -> (r: bool) {
        match self {
            EventOrderBy::Timestamp => a.timestamp_ns <= b.timestamp_ns,
            EventOrderBy::ThreadId => a.thread_id <= b.thread_id,
        }
    }
}

/// Which fields of an event a response carries.
#[derive(Debug, Clone, Copy)]
pub struct EventProjection {
    pub timestamp_ns: bool,
    pub thread_id: bool,
    pub event_type: bool,
    pub function_name: bool,
}

impl Default for EventProjection {
    fn default() -> (p: Self)
        ensures
            p == Self::standard(),
    {
        EventProjection { timestamp_ns: true, thread_id: true, event_type: true, function_name: false }
    }
}

/// One event of a response. A field that was not asked for is `None`.
#[derive(Debug, Clone, PartialEq)]
pub struct EventResult {
    pub timestamp_ns: Option<u64>,
    pub thread_id: Option<u32>,
    pub event_type: Option<String>,
    pub function_name: Option<String>,
}

/// Mathematical model of an [`EventResult`].
pub struct EventResultView {
    pub timestamp_ns: Option<u64>,
    pub thread_id: Option<u32>,
    pub event_type: Option<Seq<char>>,
    pub function_name: Option<Seq<char>>,
}

impl View for EventResult {
    type V = EventResultView;

    open spec fn view(&self) -> EventResultView {
        EventResultView {
            timestamp_ns: self.timestamp_ns,
            thread_id: self.thread_id,
            event_type: text_of(self.event_type),
            function_name: text_of(self.function_name),
        }
    }
}

/// The models of a sequence of results, in order.
pub open spec fn results_view(results: Seq<EventResult>) -> Seq<EventResultView> {
    results.map_values(|r: EventResult| r@)
}

impl EventProjection {
    /// The projection of a request that names none: time, thread and kind.
    pub open spec fn standard() -> EventProjection {
        EventProjection { timestamp_ns: true, thread_id: true, event_type: true, function_name: false }
    }

    /// `event` with the fields that were asked for. The kind is given by its
    /// tag name; the function name only where the event has a symbol.
    pub open spec fn apply(self, event: EventView) -> EventResultView {
        EventResultView {
            timestamp_ns: if self.timestamp_ns {
                Some(event.timestamp_ns)
            } else {
                None
            },
            thread_id: if self.thread_id {
                Some(event.thread_id)
            } else {
                None
            },
            event_type: if self.event_type {
                Some(event.kind.label())
            } else {
                None
            },
            function_name: if self.function_name {
                event.kind.function_symbol()
            } else {
                None
            },
        }
    }
}

/// The figures that come with a page of results.
#[derive(Debug, Clone, Copy, PartialEq, Eq, Structural)]
pub struct QueryMetadata {
    pub total_count: u64,
    pub returned_count: u64,
    pub offset: u64,
    pub limit: u64,
    pub has_more: bool,
    pub execution_time_ms: u64,
}

impl QueryMetadata {
    /// The figures of the page at `offset` of at most `limit` out of `total`
    /// results.
    pub open spec fn of_page(total: nat, offset: u64, limit: u64, execution_time_ms: u64) -> Self {
        let returned = (page_end(total, offset as nat, limit as nat) - page_start(
            total,
            offset as nat,
        )) as nat;
        QueryMetadata {
            total_count: total as u64,
            returned_count: returned as u64,
            offset,
            limit,
            has_more: has_more(total, offset as nat, returned),
            execution_time_ms,
        }
    }
}

/// The answer to `events.get`.
#[derive(Debug, Clone, PartialEq)]
pub struct EventsGetResponse {
    pub events: Vec<EventResult>,
    pub metadata: QueryMetadata,
}

/// Mathematical model of an [`EventsGetResponse`].
pub struct EventsGetResponseView {
    pub events: Seq<EventResultView>,
    pub metadata: QueryMetadata,
}

impl View for EventsGetResponse {
    type V = EventsGetResponseView;

    open spec fn view(&self) -> EventsGetResponseView {
        EventsGetResponseView { events: results_view(self.events@), metadata: self.metadata }
    }
}

/// The parameters of `events.get`.
#[derive(Debug, Clone)]
pub struct EventsGetParams {
    pub trace_id: String,
    pub filters: EventFilters,
    pub projection: EventProjection,
    pub offset: u64,
    pub limit: u64,
    pub order_by: EventOrderBy,
    pub ascending: bool,
}

impl EventsGetParams {
    /// The request for the session `trace_id` with every other parameter at
    /// its default.
    pub fn for_trace(trace_id: String) -> (p: Self)
        ensures
            p.trace_id == trace_id,
            p.filters == EventFilters::none(),
            p.projection == EventProjection::standard(),
            p.offset == 0,
            p.limit == DEFAULT_LIMIT,
            p.order_by == EventOrderBy::Timestamp,
            p.ascending,
    {
        EventsGetParams {
            trace_id,
            filters: EventFilters::default(),
            projection: EventProjection::default(),
            offset: 0,
            limit: default_limit(),
            order_by: EventOrderBy::default(),
            ascending: default_true(),
        }
    }

    /// Why the request is refused, if it is: the first of its parameters that
    /// is not acceptable.
    pub open spec fn rejection(self) -> Option<JsonRpcErrorView> {
        if is_blank(self.trace_id@) {
            Some(JsonRpcErrorView::invalid_params("traceId must not be empty"@))
        } else if self.limit > MAX_LIMIT {
            Some(JsonRpcErrorView::invalid_params("limit cannot exceed 10000"@))
        } else if self.filters.time_start_ns is Some && self.filters.time_end_ns is Some
            && self.filters.time_start_ns->0 >= self.filters.time_end_ns->0 {
            Some(JsonRpcErrorView::invalid_params("timeStartNs must be less than timeEndNs"@))
        } else if self.offset > usize::MAX {
            Some(JsonRpcErrorView::invalid_params("offset exceeds supported range"@))
        } else {
            None
        }
    }

    /// The events that the request selects from a log, in the order asked
    /// for, before paging: those that the filters admit, sorted stably by the
    /// key, and turned round where descending order is asked for.
    pub open spec fn selected(self, log: Seq<EventView>) -> Seq<EventView> {
        let sorted = stable_sort(
            log.filter(|e: EventView| self.filters.admits(e)),
            |a: EventView, b: EventView| self.order_by.key(a) <= self.order_by.key(b),
        );
        if self.ascending {
            sorted
        } else {
            sorted.reverse()
        }
    }

    /// The answer to the request over a log.
    pub open spec fn answer(self, log: Seq<EventView>, execution_time_ms: u64)
        -> EventsGetResponseView {
        EventsGetResponseView {
            events: page(self.selected(log), self.offset as nat, self.limit as nat).map_values(
                |e: EventView| self.projection.apply(e),
            ),
            metadata: QueryMetadata::of_page(
                self.selected(log).len(),
                self.offset,
                self.limit,
                execution_time_ms,
            ),
        }
    }
}

/// Cuts `event` down to the fields that `projection` asks for.
pub fn project(event: &ParsedEvent, projection: &EventProjection) -> (r: EventResult)
    ensures
        r@ == projection.apply(event@),
{
    let timestamp_ns = if projection.timestamp_ns {
        Some(event.timestamp_ns)
    } else {
        None
    };
    let thread_id = if projection.thread_id {
        Some(event.thread_id)
    } else {
        None
    };
    let event_type = if projection.event_type {
        Some(String::from_str(event.kind.as_str()))
    } else {
        None
    };
    let function_name = if projection.function_name {
        match event.kind.function_symbol() {
            Some(symbol) => Some(String::from_str(symbol)),
            None => None,
        }
    } else {
        None
    };
    EventResult { timestamp_ns, thread_id, event_type, function_name }
}

/// `items` in the opposite order.
pub fn reversed<T>(items: Vec<T>) -> (r: Vec<T>)
    ensures
        r@ == items@.reverse(),
{
    let mut items = items;
    let ghost all = items@;
    let mut r: Vec<T> = Vec::new();
    while items.len() > 0
        invariant
            items@ == all.take(items@.len() as int),
            items@.len() <= all.len(),
            r@.len() == all.len() - items@.len(),
            forall|k: int| 0 <= k < r@.len() ==> r@[k] == all[all.len() - 1 - k],
        decreases items.len(),
    {
        let ghost before = items@;
        match items.pop() {
            Some(last) => {
                assert(last == all[before.len() - 1]);
                r.push(last);
                assert(items@ =~= all.take(items@.len() as int));
            },
            None => {},
        }
    }
    assert(r@ =~= all.reverse());
    r
}

/// The `events.get` operation over the sessions below one directory.
#[derive(Debug, Clone)]
pub struct EventsGetHandler {
    trace_root_dir: String,
}

impl EventsGetHandler {
    /// The operation over the sessions below `trace_root_dir`.
    pub fn new(trace_root_dir: String) -> (h: Self)
        ensures
            h.root() == trace_root_dir@,
    {
        EventsGetHandler { trace_root_dir }
    }

    /// Registers the operation with `server` under its name.
    pub fn register(self, server: &mut JsonRpcServer)
        ensures
            final(server).events_get == Some(self),
            final(server).spans_list == old(server).spans_list,
            final(server).trace_info == old(server).trace_info,
            final(server).offers(Method::EventsGet),
    {
        server.events_get = Some(self);
    }

    /// The directory below which the sessions lie.
    pub closed spec fn root(&self) -> Seq<char> {
        self.trace_root_dir@
    }

    /// The directory below which the sessions lie.
    pub fn trace_root_dir(&self) -> (dir: &str)
        ensures
            dir@ == self.root(),
    {
        self.trace_root_dir.as_str()
    }

    /// The directory of the session that a request names: the directory of
    /// that name, without the white space around it, below the root.
    pub open spec fn session_dir_of(&self, params: EventsGetParams) -> Seq<char> {
        child_path_text(self.root(), trim(params.trace_id@))
    }

    /// The directory of the session that a request names.
    pub fn session_dir(&self, params: &EventsGetParams) -> (dir: String)
        ensures
            dir@ == self.session_dir_of(*params),
    {
        child_path(self.trace_root_dir.as_str(), trimmed(params.trace_id.as_str()))
    }

    /// Checks the parameters of a request.
    pub fn validate_params(&self, params: &EventsGetParams) -> (r: Result<(), JsonRpcError>)
        ensures
            r is Ok <==> params.rejection() is None,
            r matches Err(e) ==> Some(e@) == params.rejection(),
    {
        if str_is_blank(params.trace_id.as_str()) {
            return Err(JsonRpcError::invalid_params("traceId must not be empty"));
        }
        if params.limit > MAX_LIMIT {
            return Err(JsonRpcError::invalid_params("limit cannot exceed 10000"));
        }
        match (params.filters.time_start_ns, params.filters.time_end_ns) {
            (Some(start), Some(end)) => {
                if start >= end {
                    return Err(
                        JsonRpcError::invalid_params("timeStartNs must be less than timeEndNs"),
                    );
                }
            },
            _ => {},
        }
        if params.offset > usize::MAX as u64 {
            return Err(JsonRpcError::invalid_params("offset exceeds supported range"));
        }
        Ok(())
    }

    /// Reports a failure to load the session.
    pub fn map_atf_error(err: AtfError) -> (e: JsonRpcError)
        ensures
            e@ == load_failure(err@),
    {
        report_load_failure(err)
    }

    /// Decides whether `event` is returned under `filters`.
    pub fn event_matches_filters(&self, event: &ParsedEvent, filters: &EventFilters) -> (r: bool)
        ensures
            r == filters.admits(event@),
    {
        match filters.time_start_ns {
            Some(start) => {
                if event.timestamp_ns < start {
                    return false;
                }
            },
            None => {},
        }
        match filters.time_end_ns {
            Some(end) => {
                if event.timestamp_ns > end {
                    return false;
                }
            },
            None => {},
        }
        match &filters.thread_ids {
            Some(ids) => {
                if !contains_id(ids, event.thread_id) {
                    return false;
                }
            },
            None => {},
        }
        match &filters.event_types {
            Some(types) => {
                if !any_type_matches(types, &event.kind) {
                    return false;
                }
            },
            None => {},
        }
        match &filters.function_names {
            Some(names) => match event.kind.function_symbol() {
                Some(symbol) => {
                    if !contains_name(names, symbol) {
                        return false;
                    }
                },
                None => {
                    return false;
                },
            },
            None => {},
        }
        true
    }

    /// Cuts `event` down to the fields that `projection` asks for.
    pub fn project_event(&self, event: &ParsedEvent, projection: &EventProjection) -> (r:
        EventResult)
        ensures
            r@ == projection.apply(event@),
    {
        project(event, projection)
    }

    /// The events of `events` that are returned under `filters`, in their
    /// order.
    pub fn retain_matching(&self, events: Vec<ParsedEvent>, filters: &EventFilters) -> (kept: Vec<
        ParsedEvent,
    >)
        ensures
            kept@ == events@.filter(|e: ParsedEvent| filters.admits(e@)),
    {
        let ghost keep = |e: ParsedEvent| filters.admits(e@);
        let mut kept: Vec<ParsedEvent> = Vec::new();
        proof {
            reveal(Seq::filter);
            assert(events@.take(0).filter(keep) =~= Seq::<ParsedEvent>::empty());
        }
        for event in it: events
            invariant
                keep == (|e: ParsedEvent| filters.admits(e@)),
                kept@ == events@.take(it.index() as int).filter(keep),
        {
            proof {
                let seen = events@.take(it.index() as int);
                assert(events@.take(it.index() + 1) =~= seen.push(event));
                seen.lemma_filter_push(event, keep);
            }
            if self.event_matches_filters(&event, filters) {
                kept.push(event);
            }
        }
        proof {
            assert(events@.take(events@.len() as int) =~= events@);
        }
        kept
    }

    /// Answers a request over the events of its session: keeps those that the
    /// filters admit, sorts them by the key asked for, turns them round for
    /// descending order, and gives the page asked for. A request that is not
    /// acceptable is refused whatever the events are.
    pub fn get(&self, params: &EventsGetParams, events: Vec<ParsedEvent>, execution_time_ms: u64)
        -> (r: Result<EventsGetResponse, JsonRpcError>)
        ensures
            r is Ok <==> params.rejection() is None,
            r matches Ok(response) ==> response@ == params.answer(
                events_view(events@),
                execution_time_ms,
            ),
            r matches Err(e) ==> Some(e@) == params.rejection(),
    {
        match self.validate_params(params) {
            Err(e) => {
                return Err(e);
            },
            Ok(_) => {},
        }
        let ghost log = events_view(events@);
        let ghost le = |a: EventView, b: EventView|
            params.order_by.key(a) <= params.order_by.key(b);
        let ghost keep = |e: EventView| params.filters.admits(e);
        let ghost view = |e: ParsedEvent| e@;

        let matched = self.retain_matching(events, &params.filters);
        proof {
            lemma_filter_map(events@, view, keep);
            assert((|e: ParsedEvent| params.filters.admits(e@)) =~= (|e: ParsedEvent|
                keep(view(e))));
            assert(events_view(matched@) == log.filter(keep));
        }
        let sorted = sort_stable(matched, &params.order_by);
        proof {
            lemma_stable_sort_map(matched@, view, le);
            assert((|a: ParsedEvent, b: ParsedEvent| params.order_by.le(a, b)) =~= (|
                a: ParsedEvent,
                b: ParsedEvent,
            | le(view(a), view(b))));
            assert(events_view(sorted@) == stable_sort(log.filter(keep), le));
        }
        let ordered = if params.ascending {
            sorted
        } else {
            reversed(sorted)
        };
        proof {
            if !params.ascending {
                assert(events_view(sorted@.reverse()) =~= events_view(sorted@).reverse());
            }
            assert(events_view(ordered@) == params.selected(log));
        }
        let total = ordered.len();
        let (start, end) = page_bounds(total, params.offset, params.limit);
        let mut results: Vec<EventResult> = Vec::new();
        let mut i: usize = start;
        let ghost wanted = page(params.selected(log), params.offset as nat, params.limit as nat);
        while i < end
            invariant
                start <= i <= end <= total,
                total == ordered.len(),
                events_view(ordered@) == params.selected(log),
                wanted == params.selected(log).subrange(start as int, end as int),
                results@.len() == i - start,
                forall|k: int|
                    0 <= k < i - start ==> (#[trigger] results@[k])@ == params.projection.apply(
                        wanted[k],
                    ),
            decreases end - i,
        {
            let result = self.project_event(&ordered[i], &params.projection);
            assert(wanted[i - start] == ordered@[i as int]@);
            results.push(result);
            i += 1;
        }
        let returned = results.len();
        let metadata = QueryMetadata {
            total_count: total as u64,
            returned_count: returned as u64,
            offset: params.offset,
            limit: params.limit,
            has_more: more_after(total, params.offset, returned),
            execution_time_ms,
        };
        let response = EventsGetResponse { events: results, metadata };
        proof {
            assert(response@.events =~= params.answer(log, execution_time_ms).events);
        }
        Ok(response)
    }

    /// Answers a request from what the file system gave for its session: a
    /// request that is not acceptable is refused, a session that cannot be
    /// loaded is reported, and else the answer is given over the events of
    /// the session.
    pub fn answer(&self, params: &EventsGetParams, read: SessionRead, execution_time_ms: u64) -> (r: Result<
        EventsGetResponse,
        JsonRpcError,
    >)
        ensures
            r is Ok <==> params.rejection() is None && session_events(
                self.session_dir_of(*params),
                read,
            ) is Ok,
            r matches Ok(response) ==> response@ == params.answer(
                session_events(self.session_dir_of(*params), read)->Ok_0,
                execution_time_ms,
            ),
            r matches Err(e) ==> e@ == match params.rejection() {
                Some(refusal) => refusal,
                None => load_failure(session_events(self.session_dir_of(*params), read)->Err_0),
            },
    {
        match self.validate_params(params) {
            Err(e) => {
                return Err(e);
            },
            Ok(_) => {},
        }
        let loaded = load_session(self.session_dir(params), read);
        self.call(params, loaded, execution_time_ms)
    }

    /// Answers a request, given what loading the events of its session gave.
    /// The parameters are checked first: a request that is not acceptable is
    /// refused whether or not the session could be loaded. A failure to load
    /// is reported, and no result is given in part.
    pub fn call(
        &self,
        params: &EventsGetParams,
        loaded: Result<Vec<ParsedEvent>, AtfError>,
        execution_time_ms: u64,
    ) -> (r: Result<EventsGetResponse, JsonRpcError>)
        ensures
            r is Ok <==> params.rejection() is None && loaded is Ok,
            r matches Ok(response) ==> response@ == params.answer(
                events_view(loaded->Ok_0@),
                execution_time_ms,
            ),
            r matches Err(e) ==> e@ == match params.rejection() {
                Some(refusal) => refusal,
                None => load_failure(loaded->Err_0@),
            },
    {
        match self.validate_params(params) {
            Err(e) => {
                return Err(e);
            },
            Ok(_) => {},
        }
        match loaded {
            Err(err) => Err(Self::map_atf_error(err)),
            Ok(events) => self.get(params, events, execution_time_ms),
        }
    }
}

impl EventsGetParams {
    /// The request with another window.
    pub open spec fn with_window(self, offset: u64, limit: u64) -> EventsGetParams {
        EventsGetParams { offset, limit, ..self }
    }

    /// The events of the first `count` answers to the request asked page
    /// by page, `limit` at a time from offset zero, one after the other.
    pub open spec fn paged(self, log: Seq<EventView>, limit: u64, count: nat) -> Seq<EventResultView>
        decreases count,
    {
        if count == 0 {
            Seq::empty()
        } else {
            self.paged(log, limit, (count - 1) as nat) + self.with_window(
                ((count - 1) * limit) as u64,
                limit,
            ).answer(log, 0).events
        }
    }
}

/// Determinism: the answer is a function of the request and the log. Two
/// answers to one request over one log differ in nothing but the time that
/// answering took.
pub proof fn lemma_answer_is_determined(
    params: EventsGetParams,
    log: Seq<EventView>,
    first_time_ms: u64,
    second_time_ms: u64,
)
    ensures
        params.answer(log, first_time_ms).events == params.answer(log, second_time_ms).events,
        params.answer(log, first_time_ms).metadata == (QueryMetadata {
            execution_time_ms: first_time_ms,
            ..params.answer(log, second_time_ms).metadata
        }),
{
}

/// Pagination law: the answers to a request asked page by page, `limit` at
/// a time from offset zero up to the first answer that reports nothing more,
/// hold one after the other what the one answer at offset zero holds whose
/// limit is the total.
pub proof fn lemma_pages_make_the_answer(
    params: EventsGetParams,
    log: Seq<EventView>,
    limit: u64,
    count: nat,
)
    requires
        limit > 0,
        count > 0,
        count * limit <= u64::MAX,
        params.selected(log).len() <= u64::MAX,
        !params.with_window(((count - 1) * limit) as u64, limit).answer(log, 0).metadata.has_more,
    ensures
        params.paged(log, limit, count) == params.with_window(
            0,
            params.selected(log).len() as u64,
        ).answer(log, 0).events,
{
    let items = params.selected(log);
    let project = |s: EventView| params.projection.apply(s);
    lemma_paged_is_projected(params, log, limit, count);
    assert(((count - 1) * limit) as u64 == (count - 1) * limit) by (nonlinear_arith)
        requires
            count > 0,
            count * limit <= u64::MAX,
    ;
    assert(params.with_window(((count - 1) * limit) as u64, limit).selected(log) == items);
    lemma_pagination(items, limit as nat, count);
    assert(params.with_window(0, items.len() as u64).selected(log) == items);
}

/// What the answers asked page by page hold is the projection of the pages
/// of what the request selects.
pub proof fn lemma_paged_is_projected(
    params: EventsGetParams,
    log: Seq<EventView>,
    limit: u64,
    count: nat,
)
    requires
        count * limit <= u64::MAX,
    ensures
        params.paged(log, limit, count) == pages_through(
            params.selected(log),
            limit as nat,
            count,
        ).map_values(|s: EventView| params.projection.apply(s)),
    decreases count,
{
    let items = params.selected(log);
    let project = |s: EventView| params.projection.apply(s);
    if count == 0 {
        assert(pages_through(items, limit as nat, count).map_values(project) =~= Seq::<
            EventResultView,
        >::empty());
    } else {
        let k = (count - 1) as nat;
        assert(k * limit <= count * limit && (k * limit) as u64 == k * limit) by (nonlinear_arith)
            requires
                k == count - 1,
                count * limit <= u64::MAX,
        ;
        lemma_paged_is_projected(params, log, limit, k);
        let window = params.with_window((k * limit) as u64, limit);
        assert(window.selected(log) == items);
        assert(window.answer(log, 0).events == nth_page(items, limit as nat, k).map_values(project));
        assert((pages_through(items, limit as nat, k) + nth_page(items, limit as nat, k)).map_values(
            project,
        ) =~= pages_through(items, limit as nat, k).map_values(project) + nth_page(
            items,
            limit as nat,
            k,
        ).map_values(project));
    }
}

/// What a request selects is in the order asked for: by the key, ascending
/// or descending. Each event of it is an event of the log that the filters
/// admit, and it holds as many as the log has of those.
pub proof fn lemma_selected_events(params: EventsGetParams, log: Seq<EventView>)
    ensures
        forall|i: int, j: int|
            0 <= i < j < params.selected(log).len() ==> if params.ascending {
                params.order_by.key(#[trigger] params.selected(log)[i]) <= params.order_by.key(
                    #[trigger] params.selected(log)[j],
                )
            } else {
                params.order_by.key(params.selected(log)[i]) >= params.order_by.key(
                    params.selected(log)[j],
                )
            },
        forall|i: int|
            0 <= i < params.selected(log).len() ==> {
                &&& log.contains(#[trigger] params.selected(log)[i])
                &&& params.filters.admits(params.selected(log)[i])
            },
        params.selected(log).len() == log.filter(|e: EventView| params.filters.admits(e)).len(),
{
    let le = |a: EventView, b: EventView| params.order_by.key(a) <= params.order_by.key(b);
    let keep = |e: EventView| params.filters.admits(e);
    let kept = log.filter(keep);
    let sorted = stable_sort(kept, le);
    assert(total_preorder(le));
    lemma_stable_sort_sorts(kept, le);
    sorted.to_multiset_ensures();
    kept.to_multiset_ensures();
    let chosen = params.selected(log);
    assert forall|i: int, j: int| 0 <= i < j < chosen.len() implies if params.ascending {
        params.order_by.key(#[trigger] chosen[i]) <= params.order_by.key(#[trigger] chosen[j])
    } else {
        params.order_by.key(chosen[i]) >= params.order_by.key(chosen[j])
    } by {
        if params.ascending {
            assert(le(sorted[i], sorted[j]));
        } else {
            assert(le(sorted[sorted.len() - 1 - j], sorted[sorted.len() - 1 - i]));
        }
    }
    assert forall|i: int| 0 <= i < chosen.len() implies {
        &&& log.contains(#[trigger] chosen[i])
        &&& params.filters.admits(chosen[i])
    } by {
        let event = chosen[i];
        let k = if params.ascending {
            i
        } else {
            sorted.len() - 1 - i
        };
        assert(sorted[k] == event);
        assert(sorted.to_multiset().count(event) > 0);
        assert(kept.contains(event));
        let at = choose|at: int| 0 <= at < kept.len() && kept[at] == event;
        log.lemma_filter_pred(keep, at);
        log.lemma_filter_contains_rev(keep, event);
    }
}

/// Each kind is asked for by a name of its own.
pub proof fn lemma_kind_names(kind: EventTypeFilter)
    ensures
        EventTypeFilter::named(kind.name()) == Some(kind),
{
    reveal_strlit("traceStart");
    reveal_strlit("traceEnd");
    reveal_strlit("functionCall");
    reveal_strlit("functionReturn");
    reveal_strlit("signalDelivery");
    reveal_strlit("unknown");
    assert("traceStart"@.len() == 10 && "traceEnd"@.len() == 8 && "functionCall"@.len() == 12
        && "functionReturn"@.len() == 14 && "signalDelivery"@.len() == 14 && "unknown"@.len()
        == 7);
    assert("functionReturn"@[0] == 'f' && "signalDelivery"@[0] == 's');
}

} // verus!
