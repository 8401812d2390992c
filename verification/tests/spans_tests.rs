#![allow(non_snake_case)]

use prost::encoding::{encode_key, encode_varint, WireType};
use query_engine::atf::error::AtfError;
use query_engine::atf::event::{
    Event, FunctionCall, FunctionReturn, ParsedEvent, Payload, SignalDelivery, Timestamp,
    TraceEnd, TraceStart,
};
use query_engine::atf::manifest::RawManifest;
use query_engine::atf::reader::{AtfReader, FileRead};
use query_engine::handlers::spans::{
    make_span_id, reconstruct_spans, SpanCandidate, SpanFilters, SpanProjection,
    SpanReconstructor, SpansListHandler, SpansListParams, SpansListResponse,
};
use query_engine::server::JsonRpcError;

fn put_text(tag: u32, text: &str, out: &mut Vec<u8>) {
    if !text.is_empty() {
        prost::encoding::string::encode(tag, &text.to_string(), out);
    }
}

fn put_u64(tag: u32, value: u64, out: &mut Vec<u8>) {
    if value != 0 {
        prost::encoding::uint64::encode(tag, &value, out);
    }
}

fn put_i32(tag: u32, value: i32, out: &mut Vec<u8>) {
    if value != 0 {
        prost::encoding::int32::encode(tag, &value, out);
    }
}

fn put_nested(tag: u32, body: &[u8], out: &mut Vec<u8>) {
    encode_key(tag, WireType::LengthDelimited, out);
    encode_varint(body.len() as u64, out);
    out.extend_from_slice(body);
}

fn put_registers(tag: u32, registers: &[(String, u64)], out: &mut Vec<u8>) {
    for (name, value) in registers {
        let mut entry = Vec::new();
        put_text(1, name, &mut entry);
        put_u64(2, *value, &mut entry);
        put_nested(tag, &entry, out);
    }
}

fn payload_bytes(payload: &Payload) -> (u32, Vec<u8>) {
    let mut body = Vec::new();
    match payload {
        Payload::TraceStart(m) => {
            put_text(1, &m.executable_path, &mut body);
            for arg in &m.args {
                prost::encoding::string::encode(2, arg, &mut body);
            }
            put_text(3, &m.operating_system, &mut body);
            put_text(4, &m.cpu_architecture, &mut body);
            (10, body)
        }
        Payload::TraceEnd(m) => {
            put_i32(1, m.exit_code, &mut body);
            (11, body)
        }
        Payload::FunctionCall(m) => {
            put_text(1, &m.symbol, &mut body);
            put_u64(2, m.address, &mut body);
            put_registers(3, &m.argument_registers, &mut body);
            if !m.stack_shallow_copy.is_empty() {
                prost::encoding::bytes::encode(4, &m.stack_shallow_copy, &mut body);
            }
            (12, body)
        }
        Payload::FunctionReturn(m) => {
            put_text(1, &m.symbol, &mut body);
            put_u64(2, m.address, &mut body);
            put_registers(3, &m.return_registers, &mut body);
            (13, body)
        }
        Payload::SignalDelivery(m) => {
            put_i32(1, m.number, &mut body);
            put_text(2, &m.name, &mut body);
            put_registers(3, &m.registers, &mut body);
            (14, body)
        }
    }
}

/// The body of a record as a conforming encoder writes it.
fn record_body(event: &Event) -> Vec<u8> {
    let mut body = Vec::new();
    put_u64(1, event.event_id, &mut body);
    put_i32(2, event.thread_id, &mut body);
    if let Some(ts) = &event.timestamp {
        let stamp = prost_types::Timestamp { seconds: ts.seconds, nanos: ts.nanos };
        prost::encoding::message::encode(3, &stamp, &mut body);
    }
    if let Some(payload) = &event.payload {
        let (tag, inner) = payload_bytes(payload);
        put_nested(tag, &inner, &mut body);
    }
    body
}

/// The record with its length in front, as it stands in the event file.
fn framed(event: &Event) -> Vec<u8> {
    let body = record_body(event);
    let mut out = Vec::new();
    encode_varint(body.len() as u64, &mut out);
    out.extend_from_slice(&body);
    out
}

fn log_of(events: &[Event]) -> Vec<u8> {
    let mut out = Vec::new();
    for event in events {
        out.extend_from_slice(&framed(event));
    }
    out
}


fn timestamp(ts: u64) -> Timestamp {
    Timestamp {
        seconds: (ts / 1_000_000_000) as i64,
        nanos: (ts % 1_000_000_000) as i32,
    }
}

fn trace_start_event(timestamp_ns: u64, thread_id: i32) -> Event {
    Event {
        event_id: timestamp_ns,
        thread_id,
        timestamp: Some(timestamp(timestamp_ns)),
        payload: Some(Payload::TraceStart(TraceStart {
            executable_path: "/bin/demo".into(),
            args: vec!["--test".into()],
            operating_system: "linux".into(),
            cpu_architecture: "x86_64".into(),
        })),
    }
}

fn trace_end_event(timestamp_ns: u64, thread_id: i32) -> Event {
    Event {
        event_id: timestamp_ns,
        thread_id,
        timestamp: Some(timestamp(timestamp_ns)),
        payload: Some(Payload::TraceEnd(TraceEnd { exit_code: 0 })),
    }
}

fn function_call_event(timestamp_ns: u64, thread_id: i32, symbol: &str) -> Event {
    Event {
        event_id: timestamp_ns,
        thread_id,
        timestamp: Some(timestamp(timestamp_ns)),
        payload: Some(Payload::FunctionCall(FunctionCall {
            symbol: symbol.to_string(),
            address: 0,
            argument_registers: Default::default(),
            stack_shallow_copy: Vec::new(),
        })),
    }
}

fn function_return_event(timestamp_ns: u64, thread_id: i32, symbol: &str) -> Event {
    Event {
        event_id: timestamp_ns,
        thread_id,
        timestamp: Some(timestamp(timestamp_ns)),
        payload: Some(Payload::FunctionReturn(FunctionReturn {
            symbol: symbol.to_string(),
            address: 0,
            return_registers: Default::default(),
        })),
    }
}

fn signal_delivery_event(timestamp_ns: u64, thread_id: i32, name: &str) -> Event {
    Event {
        event_id: timestamp_ns,
        thread_id,
        timestamp: Some(timestamp(timestamp_ns)),
        payload: Some(Payload::SignalDelivery(SignalDelivery {
            number: 9,
            name: name.to_string(),
            registers: Default::default(),
        })),
    }
}

fn unknown_event(timestamp_ns: u64, thread_id: i32) -> Event {
    Event {
        event_id: timestamp_ns,
        thread_id,
        timestamp: Some(timestamp(timestamp_ns)),
        payload: None,
    }
}

fn standard_events() -> Vec<Event> {
    vec![
        trace_start_event(100, 1),
        function_return_event(150, 3, "lonely"),
        function_call_event(200, 1, "foo"),
        function_call_event(250, 1, "bar"),
        function_return_event(300, 1, "bar"),
        function_return_event(400, 1, "foo"),
        function_call_event(450, 2, "qux"),
        function_return_event(650, 2, "qux"),
        function_call_event(700, 1, ""),
        trace_end_event(900, 1),
    ]
}

/// A session in memory: what the file system would give for it.
struct TraceFixture {
    trace_id: String,
    manifest: Option<Vec<u8>>,
    events: Option<Vec<u8>>,
}

impl TraceFixture {
    fn new(trace_id: impl Into<String>) -> Self {
        Self { trace_id: trace_id.into(), manifest: None, events: None }
    }

    fn trace_root(&self) -> String {
        "/traces".to_string()
    }

    fn trace_dir(&self) -> String {
        format!("/traces/{}", self.trace_id)
    }

    fn write_manifest(&mut self, event_count: u64) {
        self.manifest = Some(
            format!(
                "{{\n  \"os\": \"linux\",\n  \"arch\": \"x86_64\",\n  \"pid\": 1,\n  \
                 \"sessionId\": 1,\n  \"timeStartNs\": 100,\n  \"timeEndNs\": 10000,\n  \
                 \"eventCount\": {event_count},\n  \"bytesWritten\": 1024\n}}"
            )
            .into_bytes(),
        );
    }

    fn write_events(&mut self, events: &[Event]) {
        self.events = Some(log_of(events));
    }

    fn write_event_bytes(&mut self, bytes: Vec<u8>) {
        self.events = Some(bytes);
    }

    /// What loading the events of the session gives.
    fn load(&self) -> Result<Vec<ParsedEvent>, AtfError> {
        let manifest = match &self.manifest {
            Some(bytes) => FileRead::Loaded(bytes.clone()),
            None => FileRead::Missing,
        };
        let parsed = RawManifest {
            os: "linux".into(),
            arch: "x86_64".into(),
            pid: 1,
            session_id: 1,
            time_start_ns: 100,
            time_end_ns: 10_000,
            event_count: 0,
            bytes_written: 1024,
            span_count: None,
            modules: None,
        };
        let reader = AtfReader::open(self.trace_dir(), true, manifest, Ok(parsed))?;
        let events = match &self.events {
            Some(bytes) => FileRead::Loaded(bytes.clone()),
            None => FileRead::Missing,
        };
        reader.load_all_events(events)
    }
}

fn missing_trace(dir: &str) -> Result<Vec<ParsedEvent>, AtfError> {
    AtfReader::open(dir.to_string(), false, FileRead::Missing, Err("not read".to_string()))
        .and_then(|reader| reader.load_all_events(FileRead::Missing))
}

fn params(trace_id: &str) -> SpansListParams {
    SpansListParams::for_trace(trace_id.to_string())
}

fn call(
    handler: &SpansListHandler,
    fixture: &TraceFixture,
    params: &SpansListParams,
) -> Result<SpansListResponse, JsonRpcError> {
    handler.validate_params(params)?;
    handler.call(params, fixture.load(), 0)
}

fn parsed(events: &[Event]) -> Vec<ParsedEvent> {
    events.iter().cloned().map(ParsedEvent::from_proto).collect()
}

fn names(response: &SpansListResponse) -> Vec<&str> {
    response.spans.iter().filter_map(|span| span.function_name.as_deref()).collect()
}

#[test]
fn span_matches_filters__depth_checks() {
    let handler = SpansListHandler::new(".".to_string());
    let span = SpanCandidate {
        span_id: "1".into(),
        function_name: Some("foo".into()),
        start_time_ns: 100,
        end_time_ns: 200,
        duration_ns: 100,
        thread_id: 1,
        depth: 2,
        child_count: 0,
    };
    let filters = SpanFilters {
        min_depth: Some(1),
        max_depth: Some(3),
        ..Default::default()
    };
    assert!(handler.span_matches_filters(&span, &filters, true));
    assert!(!handler.span_matches_filters(&span, &filters, false));
}

#[test]
fn spans_handler__limit_exceeds_max__then_returns_error() {
    let mut fixture = TraceFixture::new("spans_limit_error");
    fixture.write_manifest(2);
    fixture.write_events(&[
        function_call_event(100, 1, "test"),
        function_return_event(200, 1, "test"),
    ]);

    let handler = SpansListHandler::new(fixture.trace_root());
    let mut request = params("spans_limit_error");
    request.offset = 0;
    request.limit = 50_000;

    let err = call(&handler, &fixture, &request).expect_err("should fail");
    assert_eq!(err.code, -32602);
}

#[test]
fn spans_handler__basic_functionality__then_returns_spans() {
    let mut fixture = TraceFixture::new("spans_basic");
    fixture.write_manifest(2);
    fixture.write_events(&[
        function_call_event(100, 1, "test_func"),
        function_return_event(200, 1, "test_func"),
    ]);

    let handler = SpansListHandler::new(fixture.trace_root());
    let mut request = params("spans_basic");
    request.offset = 0;
    request.limit = 10;

    let result = call(&handler, &fixture, &request).expect("should succeed");
    assert_eq!(result.spans.len(), 1);
    assert_eq!(result.spans[0].span_id.as_deref(), Some("1:100:1"));
    assert_eq!(result.spans[0].duration_ns, Some(100));
    assert_eq!(result.metadata.total_count, 1);
}

#[test]
fn spans_handler__include_children_false__then_filters_nested() {
    let mut fixture = TraceFixture::new("trace_spans_children");
    let events = standard_events();
    fixture.write_manifest(events.len() as u64);
    fixture.write_events(&events);

    let handler = SpansListHandler::new(fixture.trace_root());
    let mut request = params("trace_spans_children");
    request.include_children = false;
    request.projection.child_count = true;
    request.projection.depth = true;
    request.projection.thread_id = true;

    let response = call(&handler, &fixture, &request).expect("handler");
    assert_eq!(response.spans.len(), 2);
    assert_eq!(response.spans[0].depth, Some(0));
    assert_eq!(response.spans[0].child_count, Some(1));
    assert_eq!(response.spans[1].depth, Some(0));
}

#[test]
fn spans_handler__filters_by_function_and_duration__then_returns_expected() {
    let mut fixture = TraceFixture::new("trace_spans_filter");
    let events = standard_events();
    fixture.write_manifest(events.len() as u64);
    fixture.write_events(&events);

    let handler = SpansListHandler::new(fixture.trace_root());
    let mut request = params("trace_spans_filter");
    request.filters = SpanFilters {
        thread_ids: Some(vec![2]),
        function_names: Some(vec!["qux".to_string()]),
        min_duration_ns: Some(150),
        max_duration_ns: Some(500),
        min_depth: Some(0),
        max_depth: Some(1),
        ..Default::default()
    };
    request.projection.thread_id = true;
    request.projection.depth = true;
    request.projection.child_count = true;

    let response = call(&handler, &fixture, &request).expect("handler");
    assert_eq!(response.spans.len(), 1);
    let span = &response.spans[0];
    assert_eq!(span.function_name.as_deref(), Some("qux"));
    assert_eq!(span.thread_id, Some(2));
    assert_eq!(span.duration_ns, Some(200));
    assert_eq!(span.depth, Some(0));
}

#[test]
fn spans_handler__projection_all_disabled__then_returns_empty_fields() {
    let mut fixture = TraceFixture::new("trace_spans_projection_disabled");
    let events = standard_events();
    fixture.write_manifest(events.len() as u64);
    fixture.write_events(&events);

    let handler = SpansListHandler::new(fixture.trace_root());
    let mut request = params("trace_spans_projection_disabled");
    request.projection = SpanProjection {
        span_id: false,
        function_name: false,
        start_time_ns: false,
        end_time_ns: false,
        duration_ns: false,
        thread_id: false,
        module_name: false,
        depth: false,
        child_count: false,
    };

    let response = call(&handler, &fixture, &request).expect("handler");
    assert!(!response.spans.is_empty());
    let span = &response.spans[0];
    assert!(span.span_id.is_none());
    assert!(span.function_name.is_none());
    assert!(span.start_time_ns.is_none());
    assert!(span.end_time_ns.is_none());
    assert!(span.duration_ns.is_none());
    assert!(span.thread_id.is_none());
    assert!(span.depth.is_none());
    assert!(span.child_count.is_none());
}

#[test]
fn spans_handler__filter_thresholds__then_exclude_spans() {
    let mut fixture = TraceFixture::new("trace_spans_thresholds");
    let events = standard_events();
    fixture.write_manifest(events.len() as u64);
    fixture.write_events(&events);

    let handler = SpansListHandler::new(fixture.trace_root());
    let base = || params("trace_spans_thresholds");
    let mut min_duration = base();
    min_duration.filters.min_duration_ns = Some(300);
    let mut max_duration = base();
    max_duration.filters.max_duration_ns = Some(100);
    max_duration.projection.function_name = true;
    let mut min_depth = base();
    min_depth.filters.min_depth = Some(1);
    min_depth.projection.function_name = true;
    min_depth.projection.depth = true;
    let mut max_depth = base();
    max_depth.filters.max_depth = Some(0);
    max_depth.projection.function_name = true;
    max_depth.projection.depth = true;
    let cases = vec![
        (min_duration, Vec::<&str>::new(), "minDurationNs"),
        (max_duration, vec!["bar"], "maxDurationNs"),
        (min_depth, vec!["bar"], "minDepth"),
        (max_depth, vec!["foo", "qux"], "maxDepth"),
    ];

    for (request, expected_names, label) in cases {
        let response = call(&handler, &fixture, &request).expect("handler");
        assert_eq!(names(&response), expected_names, "case: {label}");
    }
}

#[test]
fn spans_handler__time_range_invalid__then_error() {
    let mut fixture = TraceFixture::new("trace_spans_time");
    fixture.write_manifest(0);
    fixture.write_events(&[]);

    let handler = SpansListHandler::new(fixture.trace_root());
    let mut request = params("trace_spans_time");
    request.filters.time_start_ns = Some(1000);
    request.filters.time_end_ns = Some(100);

    let err = call(&handler, &fixture, &request).expect_err("expected error");
    assert_eq!(err.code, -32602);
}

#[test]
fn spans_handler__limit_exceeds__then_error() {
    let mut fixture = TraceFixture::new("trace_spans_limit");
    fixture.write_manifest(0);
    fixture.write_events(&[]);

    let handler = SpansListHandler::new(fixture.trace_root());
    let mut request = params("trace_spans_limit");
    request.limit = 50_000;

    let err = call(&handler, &fixture, &request).expect_err("expected error");
    assert_eq!(err.code, -32602);
}

#[test]
fn spans_handler__missing_trace__then_not_found() {
    let handler = SpansListHandler::new("/tmp/does/not/exist".to_string());
    let request = params("missing");

    let err = handler
        .call(&request, missing_trace("/tmp/does/not/exist/missing"), 0)
        .expect_err("expected error");
    assert_eq!(err.code, -32000);
}

#[test]
fn spans_handler__pagination__then_returns_correct_slice() {
    let mut fixture = TraceFixture::new("trace_spans_pagination");
    let mut events = standard_events();
    events.push(function_call_event(950, 1, "late"));
    events.push(function_return_event(1_050, 1, "late"));
    fixture.write_manifest(events.len() as u64);
    fixture.write_events(&events);

    let handler = SpansListHandler::new(fixture.trace_root());
    let mut request = params("trace_spans_pagination");
    request.offset = 1;
    request.limit = 2;
    request.projection.span_id = true;
    request.projection.start_time_ns = true;

    let response = call(&handler, &fixture, &request).expect("handler");
    assert_eq!(response.spans.len(), 2);
    assert!(response.metadata.has_more);
    assert_eq!(response.metadata.offset, 1);
    assert_eq!(response.metadata.limit, 2);
    assert_eq!(names(&response), ["bar", "qux"]);
}

#[test]
fn spans_handler__empty_trace_id__then_invalid_params() {
    let handler = SpansListHandler::new("/traces".to_string());
    let request = params("\t");

    let err = handler
        .call(&request, missing_trace("/traces/"), 0)
        .expect_err("expected invalid params");
    assert_eq!(err.code, -32602);
    let data = err.data.expect("data").to_string();
    assert!(data.contains("traceId must not be empty"), "data: {data}");
}

#[test]
fn spans_handler__min_depth_exceeds_max__then_invalid_params() {
    let mut fixture = TraceFixture::new("trace_spans_depth_validation");
    fixture.write_manifest(0);
    fixture.write_events(&[]);

    let handler = SpansListHandler::new(fixture.trace_root());
    let mut request = params("trace_spans_depth_validation");
    request.filters.min_depth = Some(2);
    request.filters.max_depth = Some(1);

    let err = call(&handler, &fixture, &request).expect_err("expected invalid params");
    assert_eq!(err.code, -32602);
    let data = err.data.expect("data").to_string();
    assert!(data.contains("minDepth must be <= maxDepth"), "data: {data}");
}

#[test]
fn spans_handler__event_decode_failure__then_internal_error() {
    let mut fixture = TraceFixture::new("trace_spans_decode_failure");
    fixture.write_manifest(1);
    fixture.write_event_bytes(vec![0xAA]);

    let handler = SpansListHandler::new(fixture.trace_root());
    let request = params("trace_spans_decode_failure");

    let err = call(&handler, &fixture, &request).expect_err("expected internal error");
    assert_eq!(err.code, -32603);
    assert_eq!(err.message, "Internal error");
    let data = err.data.expect("data").to_string();
    assert!(data.contains("failed to load trace"), "data: {data}");
}

#[test]
fn spans_handler__time_filters__then_returns_spans_within_window() {
    let mut fixture = TraceFixture::new("trace_spans_time_window");
    let events = standard_events();
    fixture.write_manifest(events.len() as u64);
    fixture.write_events(&events);

    let handler = SpansListHandler::new(fixture.trace_root());
    let mut request = params("trace_spans_time_window");
    request.filters.time_start_ns = Some(250);
    request.filters.time_end_ns = Some(500);
    request.projection.function_name = true;
    request.projection.start_time_ns = true;
    request.projection.end_time_ns = true;

    let response = call(&handler, &fixture, &request).expect("handler");
    assert_eq!(response.spans.len(), 1);
    let span = &response.spans[0];
    assert_eq!(span.function_name.as_deref(), Some("bar"));
    assert_eq!(span.start_time_ns, Some(250));
    assert_eq!(span.end_time_ns, Some(300));
}

#[test]
fn spans_handler__function_name_absent__then_excluded_by_filter() {
    let mut fixture = TraceFixture::new("trace_spans_missing_function");
    let mut events = standard_events();
    events.push(function_call_event(1_100, 4, ""));
    events.push(function_return_event(1_200, 4, ""));
    fixture.write_manifest(events.len() as u64);
    fixture.write_events(&events);

    let handler = SpansListHandler::new(fixture.trace_root());
    let mut request = params("trace_spans_missing_function");
    request.filters.function_names = Some(vec!["qux".to_string()]);
    request.projection.function_name = true;
    request.projection.thread_id = true;

    let response = call(&handler, &fixture, &request).expect("handler");
    assert_eq!(response.spans.len(), 1);
    let span = &response.spans[0];
    assert_eq!(span.function_name.as_deref(), Some("qux"));
    assert_eq!(span.thread_id, Some(2));
}

#[test]
fn spans__basic_pairing__then_two_spans_in_start_order() {
    let mut fixture = TraceFixture::new("pairing");
    let events = vec![
        function_call_event(100, 1, "foo"),
        function_call_event(250, 1, "bar"),
        function_return_event(300, 1, "bar"),
        function_return_event(400, 1, "foo"),
    ];
    fixture.write_manifest(events.len() as u64);
    fixture.write_events(&events);
    let handler = SpansListHandler::new(fixture.trace_root());
    let mut request = params("pairing");
    request.projection.depth = true;
    request.projection.child_count = true;
    request.projection.thread_id = true;

    let response = call(&handler, &fixture, &request).expect("handler");
    assert_eq!(response.spans.len(), 2);
    let foo = &response.spans[0];
    assert_eq!(foo.function_name.as_deref(), Some("foo"));
    assert_eq!(foo.start_time_ns, Some(100));
    assert_eq!(foo.end_time_ns, Some(400));
    assert_eq!(foo.duration_ns, Some(300));
    assert_eq!(foo.depth, Some(0));
    assert_eq!(foo.child_count, Some(1));
    assert_eq!(foo.span_id.as_deref(), Some("1:100:1"));
    assert_eq!(foo.module_name, None);
    let bar = &response.spans[1];
    assert_eq!(bar.function_name.as_deref(), Some("bar"));
    assert_eq!(bar.start_time_ns, Some(250));
    assert_eq!(bar.end_time_ns, Some(300));
    assert_eq!(bar.duration_ns, Some(50));
    assert_eq!(bar.depth, Some(1));
    assert_eq!(bar.child_count, Some(0));
    assert_eq!(bar.span_id.as_deref(), Some("1:250:2"));

    request.include_children = false;
    let roots = call(&handler, &fixture, &request).expect("handler");
    assert_eq!(names(&roots), ["foo"]);

    request.include_children = true;
    request.filters.time_start_ns = Some(250);
    request.filters.time_end_ns = Some(300);
    let inside = call(&handler, &fixture, &request).expect("handler");
    assert_eq!(names(&inside), ["bar"]);
}

#[test]
fn spans__orphan_return__then_one_span_and_no_error() {
    let events = vec![
        function_return_event(150, 3, "lonely"),
        function_call_event(200, 1, "foo"),
        function_return_event(400, 1, "foo"),
    ];
    let spans = reconstruct_spans(&parsed(&events));
    assert_eq!(spans.len(), 1);
    assert_eq!(spans[0].function_name.as_deref(), Some("foo"));
    assert_eq!(spans[0].span_id, "1:200:1");

    let with_orphan = reconstruct_spans(&parsed(&[
        function_return_event(10, 1, "early"),
        function_call_event(200, 1, "foo"),
        function_return_event(400, 1, "foo"),
        function_return_event(500, 1, "late"),
        function_call_event(600, 1, "again"),
        function_return_event(700, 1, "again"),
    ]));
    let without = reconstruct_spans(&parsed(&[
        function_call_event(200, 1, "foo"),
        function_return_event(400, 1, "foo"),
        function_call_event(600, 1, "again"),
        function_return_event(700, 1, "again"),
    ]));
    assert_eq!(with_orphan.len(), 2);
    for (a, b) in with_orphan.iter().zip(without.iter()) {
        assert_eq!(a.span_id, b.span_id);
        assert_eq!(a.function_name, b.function_name);
        assert_eq!((a.start_time_ns, a.end_time_ns, a.depth), (b.start_time_ns, b.end_time_ns, b.depth));
    }
}

#[test]
fn spans__reconstructor__then_completion_order_depth_and_children() {
    let mut machine = SpanReconstructor::new();
    let events = parsed(&[
        function_call_event(10, 1, "a"),
        function_call_event(20, 2, "x"),
        function_call_event(30, 1, "b"),
        function_call_event(40, 1, "c"),
        function_return_event(50, 1, "other-name"),
        signal_delivery_event(55, 1, "SIGINT"),
        function_call_event(60, 1, "d"),
        function_return_event(70, 1, "d"),
        function_return_event(80, 1, "b"),
        function_return_event(90, 2, "x"),
        function_call_event(95, 1, "open"),
        function_return_event(5, 1, "a"),
    ]);
    for event in &events {
        machine.observe(event);
    }
    let spans = machine.finish();
    let got: Vec<_> = spans
        .iter()
        .map(|s| {
            (
                s.function_name.as_deref().unwrap_or(""),
                s.thread_id,
                s.start_time_ns,
                s.end_time_ns,
                s.duration_ns,
                s.depth,
                s.child_count,
                s.span_id.as_str(),
            )
        })
        .collect();
    assert_eq!(
        got,
        vec![
            ("c", 1, 40, 50, 10, 2, 0, "1:40:4"),
            ("d", 1, 60, 70, 10, 2, 0, "1:60:5"),
            ("b", 1, 30, 80, 50, 1, 2, "1:30:3"),
            ("x", 2, 20, 90, 70, 0, 0, "2:20:2"),
            ("open", 1, 95, 5, 0, 1, 0, "1:95:6"),
        ]
    );
}

#[test]
fn spans__deep_recursion__then_one_span_per_call() {
    let depth = 3000u64;
    let mut events = Vec::new();
    for i in 0..depth {
        events.push(function_call_event(i, 1, "rec"));
    }
    for i in 0..depth {
        events.push(function_return_event(depth + i, 1, "rec"));
    }
    let spans = reconstruct_spans(&parsed(&events));
    assert_eq!(spans.len(), depth as usize);
    for (k, span) in spans.iter().enumerate() {
        assert_eq!(span.depth as u64, depth - 1 - k as u64);
        assert!(span.end_time_ns >= span.start_time_ns);
        assert_eq!(span.duration_ns, span.end_time_ns - span.start_time_ns);
        assert_eq!(span.child_count, if k == 0 { 0 } else { 1 });
    }
}

#[test]
fn spans__same_start_same_thread__then_ordered_by_identifier_text() {
    let mut events = Vec::new();
    for _ in 0..11 {
        events.push(function_call_event(5, 1, "f"));
        events.push(function_return_event(6, 1, "f"));
    }
    let mut fixture = TraceFixture::new("ties");
    fixture.write_manifest(events.len() as u64);
    fixture.write_events(&events);
    let handler = SpansListHandler::new(fixture.trace_root());
    let response = call(&handler, &fixture, &params("ties")).expect("handler");
    let ids: Vec<_> = response.spans.iter().map(|s| s.span_id.clone().expect("id")).collect();
    let mut expected: Vec<String> = (1..=11).map(|n| format!("1:5:{n}")).collect();
    expected.sort();
    assert_eq!(ids, expected);
    assert_eq!(ids[1], "1:5:10");
}

#[test]
fn spans__span_id__then_decimal_fields_joined_by_colons() {
    assert_eq!(make_span_id(0, 0, 0), "0:0:0");
    assert_eq!(make_span_id(7, 1_000_000_007, 42), "7:1000000007:42");
    assert_eq!(
        make_span_id(u32::MAX, u64::MAX, u64::MAX),
        format!("{}:{}:{}", u32::MAX, u64::MAX, u64::MAX)
    );
}

#[test]
fn spans_handler__defaults__then_standard_projection_and_children() {
    let request = params("t");
    assert_eq!(request.limit, 1000);
    assert!(request.include_children);
    assert!(request.projection.span_id);
    assert!(request.projection.function_name);
    assert!(request.projection.start_time_ns);
    assert!(request.projection.end_time_ns);
    assert!(request.projection.duration_ns);
    assert!(!request.projection.thread_id);
    assert!(!request.projection.module_name);
    assert!(!request.projection.depth);
    assert!(!request.projection.child_count);
}

#[test]
fn spans_handler__pages__then_concatenate_to_the_whole() {
    let mut events = Vec::new();
    for i in 0..5u64 {
        events.push(function_call_event(100 - i * 10, i as i32 + 1, "f"));
        events.push(function_return_event(200, i as i32 + 1, "f"));
    }
    let mut fixture = TraceFixture::new("pages");
    fixture.write_manifest(events.len() as u64);
    fixture.write_events(&events);
    let handler = SpansListHandler::new(fixture.trace_root());
    let mut whole = params("pages");
    whole.limit = 5;
    let all = call(&handler, &fixture, &whole).expect("handler");
    assert_eq!(all.spans.len(), 5);

    let mut collected = Vec::new();
    let mut offset = 0;
    loop {
        let mut request = params("pages");
        request.offset = offset;
        request.limit = 2;
        let page = call(&handler, &fixture, &request).expect("handler");
        let more = page.metadata.has_more;
        collected.extend(page.spans);
        if !more {
            break;
        }
        offset += 2;
    }
    assert_eq!(collected, all.spans);
    assert_eq!(call(&handler, &fixture, &whole).expect("again"), all);
}

#[test]
fn spans__identifiers__then_unique() {
    let mut events = Vec::new();
    let mut time = 0u64;
    for round in 0..200u64 {
        let thread = (round % 3) as i32 + 1;
        events.push(function_call_event(time, thread, "f"));
        events.push(function_call_event(time, thread, "g"));
        if round % 2 == 0 {
            time += 1;
        }
        events.push(function_return_event(time, thread, "g"));
        events.push(function_return_event(time, (round % 2) as i32 + 1, "f"));
    }
    let spans = reconstruct_spans(&parsed(&events));
    assert!(spans.len() >= 200);
    let ids: std::collections::HashSet<&str> = spans.iter().map(|s| s.span_id.as_str()).collect();
    assert_eq!(ids.len(), spans.len());
}

#[test]
fn spans__interleaved_threads__then_each_as_if_alone() {
    let one = vec![
        function_call_event(10, 1, "a"),
        function_call_event(20, 1, "b"),
        function_return_event(30, 1, "b"),
        function_call_event(40, 1, "c"),
        function_return_event(50, 1, "c"),
        function_return_event(60, 1, "a"),
    ];
    let two = vec![
        function_return_event(5, 2, "orphan"),
        function_call_event(15, 2, "x"),
        function_call_event(25, 2, "y"),
        function_return_event(35, 2, "y"),
        function_call_event(45, 2, "open"),
    ];
    let mut mixed = Vec::new();
    for i in 0..6 {
        mixed.push(one[i].clone());
        if i < two.len() {
            mixed.push(two[i].clone());
        }
    }
    let shape = |spans: &[SpanCandidate], thread: u32| -> Vec<(String, u64, u64, u32, u32)> {
        spans
            .iter()
            .filter(|s| s.thread_id == thread)
            .map(|s| {
                (
                    s.function_name.clone().unwrap_or_default(),
                    s.start_time_ns,
                    s.end_time_ns,
                    s.depth,
                    s.child_count,
                )
            })
            .collect()
    };
    let together = reconstruct_spans(&parsed(&mixed));
    let alone_one = reconstruct_spans(&parsed(&one));
    let alone_two = reconstruct_spans(&parsed(&two));
    assert_eq!(shape(&together, 1), shape(&alone_one, 1));
    assert_eq!(shape(&together, 2), shape(&alone_two, 2));
    assert_eq!(
        shape(&together, 1),
        vec![
            ("b".to_string(), 20, 30, 1, 0),
            ("c".to_string(), 40, 50, 1, 0),
            ("a".to_string(), 10, 60, 0, 2),
        ]
    );
    assert_eq!(shape(&together, 2), vec![("y".to_string(), 25, 35, 1, 0)]);
    assert_eq!(together.len(), 4);
}
