//! `spans.list`: call spans rebuilt from the event log, filtered, ordered and
//! paged.

use crate::atf::error::AtfError;
use crate::atf::reader::{load_session, session_events, SessionRead};
use crate::atf::event::{events_view, text_of, EventView, KindView, ParsedEvent, ParsedEventKind};
use crate::handlers::membership::{contains_id, contains_name, names_include};
use crate::handlers::paging::{
    has_more, lemma_pagination, more_after, nth_page, page, page_bounds, page_end, page_start,
    pages_through,
};
use crate::server::{
    load_failure, report_load_failure, JsonRpcError, JsonRpcErrorView, JsonRpcServer, Method,
};
use crate::sorting::{
    ascending, lemma_filter_keeps_ascending, lemma_filter_map, lemma_stable_sort_map,
    lemma_stable_sort_sorts, sort_stable, stable_sort, total_preorder, Precedence,
};
use crate::text::{
    child_path, child_path_text, decimal, is_blank, lemma_decimal, lemma_lex_le_total,
    lemma_lex_le_transitive, lemma_split_at_colon,
    push_decimal, str_is_blank, str_le, text_le, trim, trimmed,
};
use std::collections::HashMap;
use vstd::prelude::*;
use vstd::string::*;

verus! {

/// A completed call: one matched call/return pair on one thread.
#[derive(Debug, Clone)]
pub struct SpanCandidate {
    pub span_id: String,
    pub function_name: Option<String>,
    pub start_time_ns: u64,
    pub end_time_ns: u64,
    pub duration_ns: u64,
    pub thread_id: u32,
    pub depth: u32,
    pub child_count: u32,
}

/// Mathematical model of a [`SpanCandidate`].
pub struct SpanView {
    pub span_id: Seq<char>,
    pub function_name: Option<Seq<char>>,
    pub start_time_ns: u64,
    pub end_time_ns: u64,
    pub duration_ns: u64,
    pub thread_id: u32,
    pub depth: u32,
    pub child_count: u32,
}

impl View for SpanCandidate {
    type V = SpanView;

    open spec fn view(&self) -> SpanView {
        SpanView {
            span_id: self.span_id@,
            function_name: text_of(self.function_name),
            start_time_ns: self.start_time_ns,
            end_time_ns: self.end_time_ns,
            duration_ns: self.duration_ns,
            thread_id: self.thread_id,
            depth: self.depth,
            child_count: self.child_count,
        }
    }
}

/// The models of a sequence of spans, in order.
pub open spec fn spans_view(spans: Seq<SpanCandidate>) -> Seq<SpanView> {
    spans.map_values(|s: SpanCandidate| s@)
}

/// A call that has not returned yet.
#[derive(Debug, Clone)]
pub struct ActiveSpan {
    pub function_name: Option<String>,
    pub start_time_ns: u64,
    pub depth: u32,
    pub child_count: u32,
    pub span_sequence: u64,
}

/// Mathematical model of an [`ActiveSpan`].
pub struct FrameView {
    pub function_name: Option<Seq<char>>,
    pub start_time_ns: u64,
    pub depth: u32,
    pub child_count: u32,
    pub span_sequence: u64,
}

impl View for ActiveSpan {
    type V = FrameView;

    open spec fn view(&self) -> FrameView {
        FrameView {
            function_name: text_of(self.function_name),
            start_time_ns: self.start_time_ns,
            depth: self.depth,
            child_count: self.child_count,
            span_sequence: self.span_sequence,
        }
    }
}

/// The models of a stack of open calls, bottom first.
pub open spec fn frames_view(frames: Seq<ActiveSpan>) -> Seq<FrameView> {
    frames.map_values(|f: ActiveSpan| f@)
}

/// The identifier of a span: thread, start time and sequence number in
/// decimal, joined by colons.
pub open spec fn span_id_text(thread_id: u32, start_time_ns: u64, sequence: u64) -> Seq<char> {
    decimal(thread_id as nat) + seq![':'] + decimal(start_time_ns as nat) + seq![':'] + decimal(
        sequence as nat,
    )
}

/// An identifier names one thread, one start time and one sequence number.
pub proof fn lemma_span_id_names_one(
    thread_a: u32,
    start_a: u64,
    sequence_a: u64,
    thread_b: u32,
    start_b: u64,
    sequence_b: u64,
)
    requires
        span_id_text(thread_a, start_a, sequence_a) == span_id_text(thread_b, start_b, sequence_b),
    ensures
        thread_a == thread_b,
        start_a == start_b,
        sequence_a == sequence_b,
{
    lemma_decimal(thread_a as nat);
    lemma_decimal(thread_b as nat);
    lemma_decimal(start_a as nat);
    lemma_decimal(start_b as nat);
    lemma_decimal(sequence_a as nat);
    lemma_decimal(sequence_b as nat);
    let rest_a = decimal(start_a as nat) + seq![':'] + decimal(sequence_a as nat);
    let rest_b = decimal(start_b as nat) + seq![':'] + decimal(sequence_b as nat);
    assert(span_id_text(thread_a, start_a, sequence_a) =~= decimal(thread_a as nat) + seq![':']
        + rest_a);
    assert(span_id_text(thread_b, start_b, sequence_b) =~= decimal(thread_b as nat) + seq![':']
        + rest_b);
    lemma_split_at_colon(decimal(thread_a as nat), rest_a, decimal(thread_b as nat), rest_b);
    lemma_split_at_colon(
        decimal(start_a as nat),
        decimal(sequence_a as nat),
        decimal(start_b as nat),
        decimal(sequence_b as nat),
    );
}

/// Builds the identifier of a span.
pub fn make_span_id(thread_id: u32, start_time_ns: u64, sequence: u64) -> (id: String)
    ensures
        id@ == span_id_text(thread_id, start_time_ns, sequence),
{
    proof {
        reveal_strlit(":");
    }
    let mut id = String::new();
    push_decimal(&mut id, thread_id as u64);
    id.append(":");
    push_decimal(&mut id, start_time_ns);
    id.append(":");
    push_decimal(&mut id, sequence);
    assert(":"@ =~= seq![':']);
    assert(id@ =~= span_id_text(thread_id, start_time_ns, sequence));
    id
}

/// State of the span reconstruction: per thread the stack of open calls, the
/// spans completed so far in completion order, and the last sequence number
/// handed out.
pub struct ReconView {
    pub stacks: Map<u32, Seq<FrameView>>,
    pub spans: Seq<SpanView>,
    pub sequence: u64,
}

/// The sequence number after `sequence`.
pub open spec fn next_sequence(sequence: u64) -> u64 {
    if sequence == u64::MAX {
        0
    } else {
        (sequence + 1) as u64
    }
}

/// `count` plus one, held at the largest `u32`.
pub open spec fn bump(count: u32) -> u32 {
    if count == u32::MAX {
        count
    } else {
        (count + 1) as u32
    }
}

/// `end - start`, or zero where the end lies before the start.
pub open spec fn elapsed(start: u64, end: u64) -> u64 {
    if end >= start {
        (end - start) as u64
    } else {
        0
    }
}

impl ReconView {
    /// The state before any event: every stack empty, no span, counter zero.
    pub open spec fn start() -> ReconView {
        ReconView {
            stacks: Map::total(|t: u32| Seq::<FrameView>::empty()),
            spans: Seq::empty(),
            sequence: 0,
        }
    }

    /// A call: a frame goes on its thread's stack, at the depth the stack had.
    pub open spec fn call(self, e: EventView, symbol: Option<Seq<char>>) -> ReconView {
        let stack = self.stacks[e.thread_id];
        let sequence = next_sequence(self.sequence);
        let frame = FrameView {
            function_name: symbol,
            start_time_ns: e.timestamp_ns,
            depth: stack.len() as u32,
            child_count: 0,
            span_sequence: sequence,
        };
        ReconView {
            stacks: self.stacks.insert(e.thread_id, stack.push(frame)),
            spans: self.spans,
            sequence,
        }
    }

    /// The span that the return `e` completes for the open call `frame`.
    pub open spec fn completed(frame: FrameView, e: EventView) -> SpanView {
        SpanView {
            span_id: span_id_text(e.thread_id, frame.start_time_ns, frame.span_sequence),
            function_name: frame.function_name,
            start_time_ns: frame.start_time_ns,
            end_time_ns: e.timestamp_ns,
            duration_ns: elapsed(frame.start_time_ns, e.timestamp_ns),
            thread_id: e.thread_id,
            depth: frame.depth,
            child_count: frame.child_count,
        }
    }

    /// `stack` with one more completed child counted on its top frame.
    pub open spec fn child_done(stack: Seq<FrameView>) -> Seq<FrameView> {
        if stack.len() == 0 {
            stack
        } else {
            stack.drop_last().push(
                FrameView { child_count: bump(stack.last().child_count), ..stack.last() },
            )
        }
    }

    /// A return: the top frame of its thread leaves as a span and its parent
    /// counts a child. On an empty stack nothing changes.
    pub open spec fn ret(self, e: EventView) -> ReconView {
        let stack = self.stacks[e.thread_id];
        if stack.len() == 0 {
            self
        } else {
            ReconView {
                stacks: self.stacks.insert(e.thread_id, Self::child_done(stack.drop_last())),
                spans: self.spans.push(Self::completed(stack.last(), e)),
                sequence: self.sequence,
            }
        }
    }

    /// The state after one more event.
    pub open spec fn observe(self, e: EventView) -> ReconView {
        match e.kind {
            KindView::FunctionCall { symbol } => self.call(e, symbol),
            KindView::FunctionReturn { .. } => self.ret(e),
            _ => self,
        }
    }

    /// The state after the events of `log`, in order, taken from this state.
    pub open spec fn after(self, log: Seq<EventView>) -> ReconView
        decreases log.len(),
    {
        if log.len() == 0 {
            self
        } else {
            self.after(log.drop_last()).observe(log.last())
        }
    }

    /// The state after the events of `log`, in order, from the start.
    pub open spec fn run(log: Seq<EventView>) -> ReconView {
        Self::start().after(log)
    }
}

/// The spans of a log, in completion order. Calls still open at the end of
/// the log give no span.
pub open spec fn reconstructed(log: Seq<EventView>) -> Seq<SpanView> {
    ReconView::run(log).spans
}

/// The streaming state machine that rebuilds spans from events.
pub struct SpanReconstructor {
    call_stacks: HashMap<u32, Vec<ActiveSpan>>,
    spans: Vec<SpanCandidate>,
    span_sequence: u64,
}

impl View for SpanReconstructor {
    type V = ReconView;

    closed spec fn view(&self) -> ReconView {
        ReconView {
            stacks: Map::total(
                |t: u32|
                    if self.call_stacks@.contains_key(t) {
                        frames_view(self.call_stacks@[t]@)
                    } else {
                        Seq::empty()
                    },
            ),
            spans: spans_view(self.spans@),
            sequence: self.span_sequence,
        }
    }
}

impl SpanReconstructor {
    /// A reconstructor that has seen no event.
    pub fn new() -> (r: Self)
        ensures
            r@ == ReconView::start(),
    {
        let r = SpanReconstructor {
            call_stacks: HashMap::new(),
            spans: Vec::new(),
            span_sequence: 0,
        };
        assert(r@.stacks =~= ReconView::start().stacks);
        assert(r@.spans =~= ReconView::start().spans);
        r
    }

    /// Takes the next event of the log.
    pub fn observe(&mut self, event: &ParsedEvent)
        ensures
            final(self)@ == old(self)@.observe(event@),
    {
        broadcast use vstd::std_specs::hash::group_hash_axioms;

        let thread_id = event.thread_id;
        match &event.kind {
            ParsedEventKind::FunctionCall { symbol } => {
                let mut stack = match self.call_stacks.remove(&thread_id) {
                    Some(s) => s,
                    None => Vec::new(),
                };
                assert(frames_view(stack@) =~= old(self)@.stacks[thread_id]);
                let depth = #[verifier::truncate]
                (stack.len() as u32);
                let sequence = if self.span_sequence == u64::MAX {
                    0
                } else {
                    self.span_sequence + 1
                };
                self.span_sequence = sequence;
                let function_name = match symbol {
                    Some(s) => Some(s.clone()),
                    None => None,
                };
                let frame = ActiveSpan {
                    function_name,
                    start_time_ns: event.timestamp_ns,
                    depth,
                    child_count: 0,
                    span_sequence: sequence,
                };
                let ghost below = stack@;
                stack.push(frame);
                assert(frames_view(stack@) =~= frames_view(below).push(frame@));
                self.call_stacks.insert(thread_id, stack);
                assert(self@.stacks =~= old(self)@.observe(event@).stacks);
            },
            ParsedEventKind::FunctionReturn { .. } => {
                let found = self.call_stacks.remove(&thread_id);
                match found {
                    None => {
                        assert(self@.stacks =~= old(self)@.stacks);
                    },
                    Some(mut stack) => {
                        let ghost open = stack@;
                        assert(frames_view(open) =~= old(self)@.stacks[thread_id]);
                        match stack.pop() {
                            None => {
                                self.call_stacks.insert(thread_id, stack);
                                assert(self@.stacks =~= old(self)@.stacks);
                            },
                            Some(frame) => {
                                let duration = if event.timestamp_ns >= frame.start_time_ns {
                                    event.timestamp_ns - frame.start_time_ns
                                } else {
                                    0
                                };
                                let span = SpanCandidate {
                                    span_id: make_span_id(
                                        thread_id,
                                        frame.start_time_ns,
                                        frame.span_sequence,
                                    ),
                                    function_name: frame.function_name,
                                    start_time_ns: frame.start_time_ns,
                                    end_time_ns: event.timestamp_ns,
                                    duration_ns: duration,
                                    thread_id,
                                    depth: frame.depth,
                                    child_count: frame.child_count,
                                };
                                assert(span@ == ReconView::completed(
                                    frames_view(open).last(),
                                    event@,
                                ));
                                let ghost done = self.spans@;
                                self.spans.push(span);
                                assert(spans_view(self.spans@) =~= spans_view(done).push(span@));
                                let ghost rest = stack@;
                                assert(frames_view(rest) =~= frames_view(open).drop_last());
                                match stack.pop() {
                                    None => {},
                                    Some(mut parent) => {
                                        let ghost under = stack@;
                                        if parent.child_count < u32::MAX {
                                            parent.child_count = parent.child_count + 1;
                                        }
                                        stack.push(parent);
                                        assert(frames_view(stack@) =~= frames_view(under).push(
                                            parent@,
                                        ));
                                        assert(frames_view(under) =~= frames_view(
                                            rest,
                                        ).drop_last());
                                    },
                                }
                                assert(frames_view(stack@) =~= ReconView::child_done(
                                    frames_view(rest),
                                ));
                                self.call_stacks.insert(thread_id, stack);
                                assert(self@.stacks =~= old(self)@.observe(event@).stacks);
                            },
                        }
                    },
                }
            },
            _ => {},
        }
    }

    /// The spans completed so far, in completion order.
    pub fn finish(self) -> (spans: Vec<SpanCandidate>)
        ensures
            spans_view(spans@) == self@.spans,
    {
        self.spans
    }
}

/// Rebuilds the spans of a log.
pub fn reconstruct_spans(events: &Vec<ParsedEvent>) -> (spans: Vec<SpanCandidate>)
    ensures
        spans_view(spans@) == reconstructed(events_view(events@)),
{
    let mut machine = SpanReconstructor::new();
    let mut i: usize = 0;
    assert(events_view(events@).take(0) =~= Seq::<EventView>::empty());
    while i < events.len()
        invariant
            i <= events.len(),
            machine@ == ReconView::run(events_view(events@).take(i as int)),
        decreases events.len() - i,
    {
        proof {
            let log = events_view(events@);
            assert(log.take(i + 1).drop_last() =~= log.take(i as int));
            assert(log.take(i + 1).last() == events[i as int]@);
        }
        machine.observe(&events[i]);
        i += 1;
    }
    assert(events_view(events@).take(i as int) =~= events_view(events@));
    machine.finish()
}

/// The limit of a request that names none.
pub const DEFAULT_LIMIT: u64 = 1000;

/// The largest limit a request may name.
pub const MAX_LIMIT: u64 = 10_000;

/// The limit of a request that names none.
pub fn default_limit() -> (limit: u64)
    ensures
        limit == DEFAULT_LIMIT,
{
    DEFAULT_LIMIT
}

/// The value of a switch that is on unless the request turns it off.
pub fn default_true() -> (on: bool)
    ensures
        on,
{
    true
}

/// What a span must meet to be listed. A bound that is `None` admits all.
#[derive(Debug, Clone)]
pub struct SpanFilters {
    pub time_start_ns: Option<u64>,
    pub time_end_ns: Option<u64>,
    pub thread_ids: Option<Vec<u32>>,
    pub function_names: Option<Vec<String>>,
    pub min_duration_ns: Option<u64>,
    pub max_duration_ns: Option<u64>,
    pub min_depth: Option<u32>,
    pub max_depth: Option<u32>,
}

impl Default for SpanFilters {
    fn default() -> (f: Self)
        ensures
            f == Self::none(),
    {
        SpanFilters {
            time_start_ns: None,
            time_end_ns: None,
            thread_ids: None,
            function_names: None,
            min_duration_ns: None,
            max_duration_ns: None,
            min_depth: None,
            max_depth: None,
        }
    }
}

impl SpanFilters {
    /// The filters that admit every span.
    pub open spec fn none() -> SpanFilters {
        SpanFilters {
            time_start_ns: None,
            time_end_ns: None,
            thread_ids: None,
            function_names: None,
            min_duration_ns: None,
            max_duration_ns: None,
            min_depth: None,
            max_depth: None,
        }
    }

    /// Whether `span` is listed: it lies wholly inside the time window, its
    /// duration and depth are within their bounds, its thread and its name are
    /// among those asked for (a span without a name is none of them), and it
    /// is a root unless children are included.
    pub open spec fn admits(self, span: SpanView, include_children: bool) -> bool {
        &&& include_children || span.depth == 0
        &&& self.thread_ids matches Some(ids) ==> ids@.contains(span.thread_id)
        &&& self.time_start_ns matches Some(start) ==> span.start_time_ns >= start
        &&& self.time_end_ns matches Some(end) ==> span.end_time_ns <= end
        &&& self.min_duration_ns matches Some(least) ==> span.duration_ns >= least
        &&& self.max_duration_ns matches Some(most) ==> span.duration_ns <= most
        &&& self.min_depth matches Some(least) ==> span.depth >= least
        &&& self.max_depth matches Some(most) ==> span.depth <= most
        &&& self.function_names matches Some(names) ==> (span.function_name matches Some(name)
            && names_include(names@, name))
    }
}

/// Which fields of a span a response carries.
#[derive(Debug, Clone, Copy)]
pub struct SpanProjection {
    pub span_id: bool,
    pub function_name: bool,
    pub start_time_ns: bool,
    pub end_time_ns: bool,
    pub duration_ns: bool,
    pub thread_id: bool,
    pub module_name: bool,
    pub depth: bool,
    pub child_count: bool,
}

impl Default for SpanProjection {
    fn default() -> (p: Self)
        ensures
            p == Self::standard(),
    {
        SpanProjection {
            span_id: true,
            function_name: true,
            start_time_ns: true,
            end_time_ns: true,
            duration_ns: true,
            thread_id: false,
            module_name: false,
            depth: false,
            child_count: false,
        }
    }
}

/// One span of a response. A field that was not asked for is `None`.
#[derive(Debug, Clone, PartialEq)]
pub struct SpanResult {
    pub span_id: Option<String>,
    pub function_name: Option<String>,
    pub start_time_ns: Option<u64>,
    pub end_time_ns: Option<u64>,
    pub duration_ns: Option<u64>,
    pub thread_id: Option<u32>,
    pub module_name: Option<String>,
    pub depth: Option<u32>,
    pub child_count: Option<u32>,
}

/// Mathematical model of a [`SpanResult`].
pub struct SpanResultView {
    pub span_id: Option<Seq<char>>,
    pub function_name: Option<Seq<char>>,
    pub start_time_ns: Option<u64>,
    pub end_time_ns: Option<u64>,
    pub duration_ns: Option<u64>,
    pub thread_id: Option<u32>,
    pub module_name: Option<Seq<char>>,
    pub depth: Option<u32>,
    pub child_count: Option<u32>,
}

impl View for SpanResult {
    type V = SpanResultView;

    open spec fn view(&self) -> SpanResultView {
        SpanResultView {
            span_id: text_of(self.span_id),
            function_name: text_of(self.function_name),
            start_time_ns: self.start_time_ns,
            end_time_ns: self.end_time_ns,
            duration_ns: self.duration_ns,
            thread_id: self.thread_id,
            module_name: text_of(self.module_name),
            depth: self.depth,
            child_count: self.child_count,
        }
    }
}

/// The models of a sequence of results, in order.
pub open spec fn results_view(results: Seq<SpanResult>) -> Seq<SpanResultView> {
    results.map_values(|r: SpanResult| r@)
}

impl SpanProjection {
    /// The projection of a request that names none: identifier, name, start,
    /// end and duration.
    pub open spec fn standard() -> SpanProjection {
        SpanProjection {
            span_id: true,
            function_name: true,
            start_time_ns: true,
            end_time_ns: true,
            duration_ns: true,
            thread_id: false,
            module_name: false,
            depth: false,
            child_count: false,
        }
    }

    /// `span` with the fields that were asked for. The module name is never
    /// given.
    pub open spec fn apply(self, span: SpanView) -> SpanResultView {
        SpanResultView {
            span_id: if self.span_id {
                Some(span.span_id)
            } else {
                None
            },
            function_name: if self.function_name {
                span.function_name
            } else {
                None
            },
            start_time_ns: if self.start_time_ns {
                Some(span.start_time_ns)
            } else {
                None
            },
            end_time_ns: if self.end_time_ns {
                Some(span.end_time_ns)
            } else {
                None
            },
            duration_ns: if self.duration_ns {
                Some(span.duration_ns)
            } else {
                None
            },
            thread_id: if self.thread_id {
                Some(span.thread_id)
            } else {
                None
            },
            module_name: None,
            depth: if self.depth {
                Some(span.depth)
            } else {
                None
            },
            child_count: if self.child_count {
                Some(span.child_count)
            } else {
                None
            },
        }
    }
}

/// The figures that come with a page of results.
#[derive(Debug, Clone, Copy, PartialEq, Eq, Structural)]
pub struct QueryMetadata {
    pub total_count: u64,
    pub returned_count: u64,
    pub offset: u64,
    pub limit: u64,
    pub has_more: bool,
    pub execution_time_ms: u64,
}

impl QueryMetadata {
    /// The figures of the page at `offset` of at most `limit` out of `total`
    /// results.
    pub open spec fn of_page(total: nat, offset: u64, limit: u64, execution_time_ms: u64) -> Self {
        let returned = (page_end(total, offset as nat, limit as nat) - page_start(
            total,
            offset as nat,
        )) as nat;
        QueryMetadata {
            total_count: total as u64,
            returned_count: returned as u64,
            offset,
            limit,
            has_more: has_more(total, offset as nat, returned),
            execution_time_ms,
        }
    }
}

/// The answer to `spans.list`.
#[derive(Debug, Clone, PartialEq)]
pub struct SpansListResponse {
    pub spans: Vec<SpanResult>,
    pub metadata: QueryMetadata,
}

/// Mathematical model of a [`SpansListResponse`].
pub struct SpansListResponseView {
    pub spans: Seq<SpanResultView>,
    pub metadata: QueryMetadata,
}

impl View for SpansListResponse {
    type V = SpansListResponseView;

    open spec fn view(&self) -> SpansListResponseView {
        SpansListResponseView { spans: results_view(self.spans@), metadata: self.metadata }
    }
}

/// The order in which spans are listed: by start time, then thread, then
/// identifier.
pub open spec fn span_le(a: SpanView, b: SpanView) -> bool {
    ||| a.start_time_ns < b.start_time_ns
    ||| a.start_time_ns == b.start_time_ns && a.thread_id < b.thread_id
    ||| a.start_time_ns == b.start_time_ns && a.thread_id == b.thread_id && text_le(
        a.span_id,
        b.span_id,
    )
}

/// The listing order as a run-time order.
pub struct SpanOrder;

impl Precedence<SpanCandidate> for SpanOrder {
    open spec fn le(&self, a: SpanCandidate, b: SpanCandidate) -> bool {
        span_le(a@, b@)
    }

    fn decide(&self, a: &SpanCandidate, b: &SpanCandidate) -> (r: bool) {
        if a.start_time_ns != b.start_time_ns {
            a.start_time_ns < b.start_time_ns
        } else if a.thread_id != b.thread_id {
            a.thread_id < b.thread_id
        } else {
            str_le(a.span_id.as_str(), b.span_id.as_str())
        }
    }
}

/// The parameters of `spans.list`.
#[derive(Debug, Clone)]
pub struct SpansListParams {
    pub trace_id: String,
    pub filters: SpanFilters,
    pub projection: SpanProjection,
    pub offset: u64,
    pub limit: u64,
    pub include_children: bool,
}

impl SpansListParams {
    /// The request for the session `trace_id` with every other parameter at
    /// its default.
    pub fn for_trace(trace_id: String) -> (p: Self)
        ensures
            p.trace_id == trace_id,
            p.filters == SpanFilters::none(),
            p.projection == SpanProjection::standard(),
            p.offset == 0,
            p.limit == DEFAULT_LIMIT,
            p.include_children,
    {
        SpansListParams {
            trace_id,
            filters: SpanFilters::default(),
            projection: SpanProjection::default(),
            offset: 0,
            limit: default_limit(),
            include_children: default_true(),
        }
    }

    /// Why the request is refused, if it is: the first of its parameters that
    /// is not acceptable.
    pub open spec fn rejection(self) -> Option<JsonRpcErrorView> {
        if is_blank(self.trace_id@) {
            Some(JsonRpcErrorView::invalid_params("traceId must not be empty"@))
        } else if self.limit > MAX_LIMIT {
            Some(JsonRpcErrorView::invalid_params("limit cannot exceed 10000"@))
        } else if self.filters.time_start_ns is Some && self.filters.time_end_ns is Some
            && self.filters.time_start_ns->0 >= self.filters.time_end_ns->0 {
            Some(JsonRpcErrorView::invalid_params("timeStartNs must be less than timeEndNs"@))
        } else if self.filters.min_depth is Some && self.filters.max_depth is Some
            && self.filters.min_depth->0 > self.filters.max_depth->0 {
            Some(JsonRpcErrorView::invalid_params("minDepth must be <= maxDepth"@))
        } else if self.offset > usize::MAX {
            Some(JsonRpcErrorView::invalid_params("offset exceeds supported range"@))
        } else {
            None
        }
    }

    /// The spans that the request selects from a log, in listing order, before
    /// paging.
    pub open spec fn selected(self, log: Seq<EventView>) -> Seq<SpanView> {
        stable_sort(reconstructed(log), |a: SpanView, b: SpanView| span_le(a, b)).filter(
            |s: SpanView| self.filters.admits(s, self.include_children),
        )
    }

    /// The answer to the request over a log.
    pub open spec fn answer(self, log: Seq<EventView>, execution_time_ms: u64)
        -> SpansListResponseView {
        SpansListResponseView {
            spans: page(self.selected(log), self.offset as nat, self.limit as nat).map_values(
                |s: SpanView| self.projection.apply(s),
            ),
            metadata: QueryMetadata::of_page(
                self.selected(log).len(),
                self.offset,
                self.limit,
                execution_time_ms,
            ),
        }
    }
}

/// The `spans.list` operation over the sessions below one directory.
#[derive(Debug, Clone)]
pub struct SpansListHandler {
    trace_root_dir: String,
}

impl SpansListHandler {
    /// The operation over the sessions below `trace_root_dir`.
    pub fn new(trace_root_dir: String) -> (h: Self)
        ensures
            h.root() == trace_root_dir@,
    {
        SpansListHandler { trace_root_dir }
    }

    /// Registers the operation with `server` under its name.
    pub fn register(self, server: &mut JsonRpcServer)
        ensures
            final(server).spans_list == Some(self),
            final(server).events_get == old(server).events_get,
            final(server).trace_info == old(server).trace_info,
            final(server).offers(Method::SpansList),
    {
        server.spans_list = Some(self);
    }

    /// The directory below which the sessions lie.
    pub closed spec fn root(&self) -> Seq<char> {
        self.trace_root_dir@
    }

    /// The directory below which the sessions lie.
    pub fn trace_root_dir(&self) -> (dir: &str)
        ensures
            dir@ == self.root(),
    {
        self.trace_root_dir.as_str()
    }

    /// The directory of the session that a request names: the directory of
    /// that name, without the white space around it, below the root.
    pub open spec fn session_dir_of(&self, params: SpansListParams) -> Seq<char> {
        child_path_text(self.root(), trim(params.trace_id@))
    }

    /// The directory of the session that a request names.
    pub fn session_dir(&self, params: &SpansListParams) -> (dir: String)
        ensures
            dir@ == self.session_dir_of(*params),
    {
        child_path(self.trace_root_dir.as_str(), trimmed(params.trace_id.as_str()))
    }

    /// Checks the parameters of a request.
    pub fn validate_params(&self, params: &SpansListParams) -> (r: Result<(), JsonRpcError>)
        ensures
            r is Ok <==> params.rejection() is None,
            r matches Err(e) ==> Some(e@) == params.rejection(),
    {
        if str_is_blank(params.trace_id.as_str()) {
            return Err(JsonRpcError::invalid_params("traceId must not be empty"));
        }
        if params.limit > MAX_LIMIT {
            return Err(JsonRpcError::invalid_params("limit cannot exceed 10000"));
        }
        match (params.filters.time_start_ns, params.filters.time_end_ns) {
            (Some(start), Some(end)) => {
                if start >= end {
                    return Err(
                        JsonRpcError::invalid_params("timeStartNs must be less than timeEndNs"),
                    );
                }
            },
            _ => {},
        }
        match (params.filters.min_depth, params.filters.max_depth) {
            (Some(least), Some(most)) => {
                if least > most {
                    return Err(JsonRpcError::invalid_params("minDepth must be <= maxDepth"));
                }
            },
            _ => {},
        }
        if params.offset > usize::MAX as u64 {
            return Err(JsonRpcError::invalid_params("offset exceeds supported range"));
        }
        Ok(())
    }

    /// Reports a failure to load the session.
    pub fn map_atf_error(err: AtfError) -> (e: JsonRpcError)
        ensures
            e@ == load_failure(err@),
    {
        report_load_failure(err)
    }

    /// Decides whether `span` is listed under `filters`.
    pub fn span_matches_filters(
        &self,
        span: &SpanCandidate,
        filters: &SpanFilters,
        include_children: bool,
    ) -> (r: bool)
        ensures
            r == filters.admits(span@, include_children),
    {
        if !include_children && span.depth > 0 {
            return false;
        }
        match &filters.thread_ids {
            Some(ids) => {
                if !contains_id(ids, span.thread_id) {
                    return false;
                }
            },
            None => {},
        }
        match filters.time_start_ns {
            Some(start) => {
                if span.start_time_ns < start {
                    return false;
                }
            },
            None => {},
        }
        match filters.time_end_ns {
            Some(end) => {
                if span.end_time_ns > end {
                    return false;
                }
            },
            None => {},
        }
        match filters.min_duration_ns {
            Some(least) => {
                if span.duration_ns < least {
                    return false;
                }
            },
            None => {},
        }
        match filters.max_duration_ns {
            Some(most) => {
                if span.duration_ns > most {
                    return false;
                }
            },
            None => {},
        }
        match filters.min_depth {
            Some(least) => {
                if span.depth < least {
                    return false;
                }
            },
            None => {},
        }
        match filters.max_depth {
            Some(most) => {
                if span.depth > most {
                    return false;
                }
            },
            None => {},
        }
        match &filters.function_names {
            Some(names) => match &span.function_name {
                Some(name) => {
                    if !contains_name(names, name.as_str()) {
                        return false;
                    }
                },
                None => {
                    return false;
                },
            },
            None => {},
        }
        true
    }

    /// Cuts `span` down to the fields that `projection` asks for.
    pub fn project_span(&self, span: &SpanCandidate, projection: &SpanProjection) -> (r:
        SpanResult)
        ensures
            r@ == projection.apply(span@),
    {
        SpanResult {
            span_id: if projection.span_id {
                Some(span.span_id.clone())
            } else {
                None
            },
            function_name: if projection.function_name {
                match &span.function_name {
                    Some(name) => Some(name.clone()),
                    None => None,
                }
            } else {
                None
            },
            start_time_ns: if projection.start_time_ns {
                Some(span.start_time_ns)
            } else {
                None
            },
            end_time_ns: if projection.end_time_ns {
                Some(span.end_time_ns)
            } else {
                None
            },
            duration_ns: if projection.duration_ns {
                Some(span.duration_ns)
            } else {
                None
            },
            thread_id: if projection.thread_id {
                Some(span.thread_id)
            } else {
                None
            },
            module_name: None,
            depth: if projection.depth {
                Some(span.depth)
            } else {
                None
            },
            child_count: if projection.child_count {
                Some(span.child_count)
            } else {
                None
            },
        }
    }

    /// The spans of `spans` that are listed under `filters`, in their order.
    pub fn retain_matching(
        &self,
        spans: Vec<SpanCandidate>,
        filters: &SpanFilters,
        include_children: bool,
    ) -> (kept: Vec<SpanCandidate>)
        ensures
            kept@ == spans@.filter(|s: SpanCandidate| filters.admits(s@, include_children)),
    {
        let ghost keep = |s: SpanCandidate| filters.admits(s@, include_children);
        let mut kept: Vec<SpanCandidate> = Vec::new();
        proof {
            reveal(Seq::filter);
            assert(spans@.take(0).filter(keep) =~= Seq::<SpanCandidate>::empty());
        }
        for span in it: spans
            invariant
                keep == (|s: SpanCandidate| filters.admits(s@, include_children)),
                kept@ == spans@.take(it.index() as int).filter(keep),
        {
            proof {
                let seen = spans@.take(it.index() as int);
                assert(spans@.take(it.index() + 1) =~= seen.push(span));
                seen.lemma_filter_push(span, keep);
            }
            if self.span_matches_filters(&span, filters, include_children) {
                kept.push(span);
            }
        }
        proof {
            assert(spans@.take(spans@.len() as int) =~= spans@);
        }
        kept
    }

    /// Answers a request over the events of its session: rebuilds the spans,
    /// puts them in listing order, keeps those that the filters admit, and
    /// gives the page asked for. A request that is not acceptable is refused
    /// whatever the events are.
    pub fn list(
        &self,
        params: &SpansListParams,
        events: &Vec<ParsedEvent>,
        execution_time_ms: u64,
    ) -> (r: Result<SpansListResponse, JsonRpcError>)
        ensures
            r is Ok <==> params.rejection() is None,
            r matches Ok(response) ==> response@ == params.answer(
                events_view(events@),
                execution_time_ms,
            ),
            r matches Err(e) ==> Some(e@) == params.rejection(),
    {
        match self.validate_params(params) {
            Err(e) => {
                return Err(e);
            },
            Ok(_) => {},
        }
        let ghost log = events_view(events@);
        let ghost le = |a: SpanView, b: SpanView| span_le(a, b);
        let ghost keep = |s: SpanView| params.filters.admits(s, params.include_children);
        let ghost view = |s: SpanCandidate| s@;

        let rebuilt = reconstruct_spans(events);
        let order = SpanOrder;
        let sorted = sort_stable(rebuilt, &order);
        proof {
            lemma_stable_sort_map(rebuilt@, view, le);
            assert((|a: SpanCandidate, b: SpanCandidate| order.le(a, b)) =~= (|
                a: SpanCandidate,
                b: SpanCandidate,
            | le(view(a), view(b))));
            assert(spans_view(sorted@) == stable_sort(reconstructed(log), le));
        }
        let filtered = self.retain_matching(sorted, &params.filters, params.include_children);
        proof {
            lemma_filter_map(sorted@, view, keep);
            assert((|s: SpanCandidate| params.filters.admits(s@, params.include_children)) =~= (|
                s: SpanCandidate,
            | keep(view(s))));
            assert(spans_view(filtered@) == params.selected(log));
        }
        let total = filtered.len();
        let (start, end) = page_bounds(total, params.offset, params.limit);
        let mut results: Vec<SpanResult> = Vec::new();
        let mut i: usize = start;
        let ghost wanted = page(params.selected(log), params.offset as nat, params.limit as nat);
        while i < end
            invariant
                start <= i <= end <= total,
                total == filtered.len(),
                spans_view(filtered@) == params.selected(log),
                wanted == params.selected(log).subrange(start as int, end as int),
                results@.len() == i - start,
                forall|k: int|
                    0 <= k < i - start ==> (#[trigger] results@[k])@ == params.projection.apply(
                        wanted[k],
                    ),
            decreases end - i,
        {
            let result = self.project_span(&filtered[i], &params.projection);
            assert(wanted[i - start] == filtered@[i as int]@);
            results.push(result);
            i += 1;
        }
        let returned = results.len();
        let metadata = QueryMetadata {
            total_count: total as u64,
            returned_count: returned as u64,
            offset: params.offset,
            limit: params.limit,
            has_more: more_after(total, params.offset, returned),
            execution_time_ms,
        };
        let response = SpansListResponse { spans: results, metadata };
        proof {
            assert(response@.spans =~= params.answer(log, execution_time_ms).spans);
        }
        Ok(response)
    }

    /// Answers a request from what the file system gave for its session: a
    /// request that is not acceptable is refused, a session that cannot be
    /// loaded is reported, and else the answer is given over the events of
    /// the session.
    pub fn answer(&self, params: &SpansListParams, read: SessionRead, execution_time_ms: u64) -> (r: Result<
        SpansListResponse,
        JsonRpcError,
    >)
        ensures
            r is Ok <==> params.rejection() is None && session_events(
                self.session_dir_of(*params),
                read,
            ) is Ok,
            r matches Ok(response) ==> response@ == params.answer(
                session_events(self.session_dir_of(*params), read)->Ok_0,
                execution_time_ms,
            ),
            r matches Err(e) ==> e@ == match params.rejection() {
                Some(refusal) => refusal,
                None => load_failure(session_events(self.session_dir_of(*params), read)->Err_0),
            },
    {
        match self.validate_params(params) {
            Err(e) => {
                return Err(e);
            },
            Ok(_) => {},
        }
        let loaded = load_session(self.session_dir(params), read);
        self.call(params, loaded, execution_time_ms)
    }

    /// Answers a request, given what loading the events of its session gave.
    /// The parameters are checked first: a request that is not acceptable is
    /// refused whether or not the session could be loaded. A failure to load
    /// is reported, and no result is given in part.
    pub fn call(
        &self,
        params: &SpansListParams,
        loaded: Result<Vec<ParsedEvent>, AtfError>,
        execution_time_ms: u64,
    ) -> (r: Result<SpansListResponse, JsonRpcError>)
        ensures
            r is Ok <==> params.rejection() is None && loaded is Ok,
            r matches Ok(response) ==> response@ == params.answer(
                events_view(loaded->Ok_0@),
                execution_time_ms,
            ),
            r matches Err(e) ==> e@ == match params.rejection() {
                Some(refusal) => refusal,
                None => load_failure(loaded->Err_0@),
            },
    {
        match self.validate_params(params) {
            Err(e) => {
                return Err(e);
            },
            Ok(_) => {},
        }
        match loaded {
            Err(err) => Err(Self::map_atf_error(err)),
            Ok(events) => self.list(params, &events, execution_time_ms),
        }
    }
}

impl SpansListParams {
    /// The request with another window.
    pub open spec fn with_window(self, offset: u64, limit: u64) -> SpansListParams {
        SpansListParams { offset, limit, ..self }
    }

    /// The spans of the first `count` answers to the request asked page
    /// by page, `limit` at a time from offset zero, one after the other.
    pub open spec fn paged(self, log: Seq<EventView>, limit: u64, count: nat) -> Seq<SpanResultView>
        decreases count,
    {
        if count == 0 {
            Seq::empty()
        } else {
            self.paged(log, limit, (count - 1) as nat) + self.with_window(
                ((count - 1) * limit) as u64,
                limit,
            ).answer(log, 0).spans
        }
    }
}

/// Determinism: the answer is a function of the request and the log. Two
/// answers to one request over one log differ in nothing but the time that
/// answering took.
pub proof fn lemma_answer_is_determined(
    params: SpansListParams,
    log: Seq<EventView>,
    first_time_ms: u64,
    second_time_ms: u64,
)
    ensures
        params.answer(log, first_time_ms).spans == params.answer(log, second_time_ms).spans,
        params.answer(log, first_time_ms).metadata == (QueryMetadata {
            execution_time_ms: first_time_ms,
            ..params.answer(log, second_time_ms).metadata
        }),
{
}

/// Pagination law: the answers to a request asked page by page, `limit` at
/// a time from offset zero up to the first answer that reports nothing more,
/// hold one after the other what the one answer at offset zero holds whose
/// limit is the total.
pub proof fn lemma_pages_make_the_answer(
    params: SpansListParams,
    log: Seq<EventView>,
    limit: u64,
    count: nat,
)
    requires
        limit > 0,
        count > 0,
        count * limit <= u64::MAX,
        params.selected(log).len() <= u64::MAX,
        !params.with_window(((count - 1) * limit) as u64, limit).answer(log, 0).metadata.has_more,
    ensures
        params.paged(log, limit, count) == params.with_window(
            0,
            params.selected(log).len() as u64,
        ).answer(log, 0).spans,
{
    let items = params.selected(log);
    let project = |s: SpanView| params.projection.apply(s);
    lemma_paged_is_projected(params, log, limit, count);
    assert(((count - 1) * limit) as u64 == (count - 1) * limit) by (nonlinear_arith)
        requires
            count > 0,
            count * limit <= u64::MAX,
    ;
    assert(params.with_window(((count - 1) * limit) as u64, limit).selected(log) == items);
    lemma_pagination(items, limit as nat, count);
    assert(params.with_window(0, items.len() as u64).selected(log) == items);
}

/// What the answers asked page by page hold is the projection of the pages
/// of what the request selects.
pub proof fn lemma_paged_is_projected(
    params: SpansListParams,
    log: Seq<EventView>,
    limit: u64,
    count: nat,
)
    requires
        count * limit <= u64::MAX,
    ensures
        params.paged(log, limit, count) == pages_through(
            params.selected(log),
            limit as nat,
            count,
        ).map_values(|s: SpanView| params.projection.apply(s)),
    decreases count,
{
    let items = params.selected(log);
    let project = |s: SpanView| params.projection.apply(s);
    if count == 0 {
        assert(pages_through(items, limit as nat, count).map_values(project) =~= Seq::<
            SpanResultView,
        >::empty());
    } else {
        let k = (count - 1) as nat;
        assert(k * limit <= count * limit && (k * limit) as u64 == k * limit) by (nonlinear_arith)
            requires
                k == count - 1,
                count * limit <= u64::MAX,
        ;
        lemma_paged_is_projected(params, log, limit, k);
        let window = params.with_window((k * limit) as u64, limit);
        assert(window.selected(log) == items);
        assert(window.answer(log, 0).spans == nth_page(items, limit as nat, k).map_values(project));
        assert((pages_through(items, limit as nat, k) + nth_page(items, limit as nat, k)).map_values(
            project,
        ) =~= pages_through(items, limit as nat, k).map_values(project) + nth_page(
            items,
            limit as nat,
            k,
        ).map_values(project));
    }
}

/// The listing order tells any two spans apart or puts them level, and is
/// transitive.
pub proof fn lemma_span_order()
    ensures
        total_preorder(|a: SpanView, b: SpanView| span_le(a, b)),
{
    let le = |a: SpanView, b: SpanView| span_le(a, b);
    assert forall|a: SpanView, b: SpanView| #[trigger] le(a, b) || #[trigger] le(b, a) by {
        lemma_lex_le_total(
            vstd::utf8::encode_utf8(a.span_id),
            vstd::utf8::encode_utf8(b.span_id),
        );
    }
    assert forall|a: SpanView, b: SpanView, c: SpanView| #[trigger]
        le(a, b) && #[trigger] le(b, c) implies le(a, c) by {
        if a.start_time_ns == b.start_time_ns && b.start_time_ns == c.start_time_ns && a.thread_id
            == b.thread_id && b.thread_id == c.thread_id {
            lemma_lex_le_transitive(
                vstd::utf8::encode_utf8(a.span_id),
                vstd::utf8::encode_utf8(b.span_id),
                vstd::utf8::encode_utf8(c.span_id),
            );
        }
    }
}

/// What a request selects is in listing order, and each span of it is a
/// span of the log that the filters admit.
pub proof fn lemma_selected_spans(params: SpansListParams, log: Seq<EventView>)
    ensures
        ascending(params.selected(log), |a: SpanView, b: SpanView| span_le(a, b)),
        forall|i: int|
            0 <= i < params.selected(log).len() ==> {
                &&& reconstructed(log).contains(#[trigger] params.selected(log)[i])
                &&& params.filters.admits(params.selected(log)[i], params.include_children)
            },
{
    let le = |a: SpanView, b: SpanView| span_le(a, b);
    let keep = |s: SpanView| params.filters.admits(s, params.include_children);
    let sorted = stable_sort(reconstructed(log), le);
    lemma_span_order();
    lemma_stable_sort_sorts(reconstructed(log), le);
    lemma_filter_keeps_ascending(sorted, keep, le);
    sorted.to_multiset_ensures();
    reconstructed(log).to_multiset_ensures();
    assert forall|i: int| 0 <= i < params.selected(log).len() implies {
        &&& reconstructed(log).contains(#[trigger] params.selected(log)[i])
        &&& params.filters.admits(params.selected(log)[i], params.include_children)
    } by {
        let span = params.selected(log)[i];
        assert(sorted.contains(span));
        assert(sorted.to_multiset().count(span) > 0);
        sorted.lemma_filter_pred(keep, i);
    }
}

} // verus!
