#![allow(non_snake_case)]

use prost::encoding::{encode_key, encode_varint, WireType};
use query_engine::atf::codec::decode_record;
use query_engine::atf::error::{AtfError, DecodeFault};
use query_engine::atf::event::{
    Event, FunctionCall, FunctionReturn, ParsedEvent, ParsedEventKind, Payload, SignalDelivery,
    Timestamp, TraceEnd, TraceStart,
};
use query_engine::atf::manifest::{ManifestInfo, RawManifest};
use query_engine::atf::reader::{AtfReader, EventStream, FileRead};
use query_engine::atf::wire::{read_field, read_key, read_varint};

fn event_with_payload(payload: Payload) -> Event {
    Event {
        event_id: 1,
        thread_id: 7,
        timestamp: Some(Timestamp { seconds: 0, nanos: 500 }),
        payload: Some(payload),
    }
}

fn put_text(tag: u32, text: &str, out: &mut Vec<u8>) {
    if !text.is_empty() {
        prost::encoding::string::encode(tag, &text.to_string(), out);
    }
}

fn put_u64(tag: u32, value: u64, out: &mut Vec<u8>) {
    if value != 0 {
        prost::encoding::uint64::encode(tag, &value, out);
    }
}

fn put_i32(tag: u32, value: i32, out: &mut Vec<u8>) {
    if value != 0 {
        prost::encoding::int32::encode(tag, &value, out);
    }
}

fn put_nested(tag: u32, body: &[u8], out: &mut Vec<u8>) {
    encode_key(tag, WireType::LengthDelimited, out);
    encode_varint(body.len() as u64, out);
    out.extend_from_slice(body);
}

fn put_registers(tag: u32, registers: &[(String, u64)], out: &mut Vec<u8>) {
    for (name, value) in registers {
        let mut entry = Vec::new();
        put_text(1, name, &mut entry);
        put_u64(2, *value, &mut entry);
        put_nested(tag, &entry, out);
    }
}

fn payload_bytes(payload: &Payload) -> (u32, Vec<u8>) {
    let mut body = Vec::new();
    match payload {
        Payload::TraceStart(m) => {
            put_text(1, &m.executable_path, &mut body);
            for arg in &m.args {
                prost::encoding::string::encode(2, arg, &mut body);
            }
            put_text(3, &m.operating_system, &mut body);
            put_text(4, &m.cpu_architecture, &mut body);
            (10, body)
        }
        Payload::TraceEnd(m) => {
            put_i32(1, m.exit_code, &mut body);
            (11, body)
        }
        Payload::FunctionCall(m) => {
            put_text(1, &m.symbol, &mut body);
            put_u64(2, m.address, &mut body);
            put_registers(3, &m.argument_registers, &mut body);
            if !m.stack_shallow_copy.is_empty() {
                prost::encoding::bytes::encode(4, &m.stack_shallow_copy, &mut body);
            }
            (12, body)
        }
        Payload::FunctionReturn(m) => {
            put_text(1, &m.symbol, &mut body);
            put_u64(2, m.address, &mut body);
            put_registers(3, &m.return_registers, &mut body);
            (13, body)
        }
        Payload::SignalDelivery(m) => {
            put_i32(1, m.number, &mut body);
            put_text(2, &m.name, &mut body);
            put_registers(3, &m.registers, &mut body);
            (14, body)
        }
    }
}

/// The body of a record as a conforming encoder writes it.
fn record_body(event: &Event) -> Vec<u8> {
    let mut body = Vec::new();
    put_u64(1, event.event_id, &mut body);
    put_i32(2, event.thread_id, &mut body);
    if let Some(ts) = &event.timestamp {
        let stamp = prost_types::Timestamp { seconds: ts.seconds, nanos: ts.nanos };
        prost::encoding::message::encode(3, &stamp, &mut body);
    }
    if let Some(payload) = &event.payload {
        let (tag, inner) = payload_bytes(payload);
        put_nested(tag, &inner, &mut body);
    }
    body
}

/// The record with its length in front, as it stands in the event file.
fn framed(event: &Event) -> Vec<u8> {
    let body = record_body(event);
    let mut out = Vec::new();
    encode_varint(body.len() as u64, &mut out);
    out.extend_from_slice(&body);
    out
}

fn log_of(events: &[Event]) -> Vec<u8> {
    let mut out = Vec::new();
    for event in events {
        out.extend_from_slice(&framed(event));
    }
    out
}

fn member_u64(object: &serde_json::Value, key: &str) -> Result<u64, String> {
    object
        .get(key)
        .and_then(|v| v.as_u64())
        .ok_or_else(|| format!("missing field `{key}`"))
}

fn member_text(object: &serde_json::Value, key: &str) -> Result<String, String> {
    object
        .get(key)
        .and_then(|v| v.as_str())
        .map(|s| s.to_string())
        .ok_or_else(|| format!("missing field `{key}`"))
}

/// What a JSON decoder makes of a manifest file.
fn parse_manifest(payload: &[u8]) -> Result<RawManifest, String> {
    let value: serde_json::Value =
        serde_json::from_slice(payload).map_err(|err| err.to_string())?;
    let pid = u32::try_from(member_u64(&value, "pid")?).map_err(|err| err.to_string())?;
    let span_count = match value.get("spanCount") {
        None | Some(serde_json::Value::Null) => None,
        Some(v) => Some(v.as_u64().ok_or_else(|| "invalid spanCount".to_string())?),
    };
    let modules = match value.get("modules") {
        None | Some(serde_json::Value::Null) => None,
        Some(v) => {
            let items = v.as_array().ok_or_else(|| "invalid modules".to_string())?;
            let mut names = Vec::new();
            for item in items {
                names.push(item.as_str().ok_or_else(|| "invalid module".to_string())?.to_string());
            }
            Some(names)
        }
    };
    Ok(RawManifest {
        os: member_text(&value, "os")?,
        arch: member_text(&value, "arch")?,
        pid,
        session_id: member_u64(&value, "sessionId")?,
        time_start_ns: member_u64(&value, "timeStartNs")?,
        time_end_ns: member_u64(&value, "timeEndNs")?,
        event_count: member_u64(&value, "eventCount")?,
        bytes_written: member_u64(&value, "bytesWritten")?,
        span_count,
        modules,
    })
}

fn manifest_json(start: u64, end: u64, event_count: u64, extra: &str) -> Vec<u8> {
    format!(
        "{{\"os\":\"linux\",\"arch\":\"x86_64\",\"pid\":9000,\"sessionId\":5,\
         \"timeStartNs\":{start},\"timeEndNs\":{end},\"eventCount\":{event_count},\
         \"bytesWritten\":1024{extra}}}"
    )
    .into_bytes()
}

fn manifest_from(payload: &[u8]) -> Result<ManifestInfo, AtfError> {
    ManifestInfo::from_bytes(payload, parse_manifest(payload))
}

fn open_with_manifest(dir: &str, payload: Vec<u8>) -> Result<AtfReader, AtfError> {
    let parsed = parse_manifest(&payload);
    AtfReader::open(dir.to_string(), true, FileRead::Loaded(payload), parsed)
}

fn sample_manifest(event_count: u64) -> Vec<u8> {
    format!(
        "{{\"os\":\"linux\",\"arch\":\"x86_64\",\"pid\":42,\"sessionId\":1,\
         \"timeStartNs\":100,\"timeEndNs\":200,\"eventCount\":{event_count},\
         \"bytesWritten\":512}}"
    )
    .into_bytes()
}

fn sample_event() -> Event {
    Event {
        event_id: 1,
        thread_id: 1,
        timestamp: None,
        payload: Some(Payload::TraceStart(TraceStart {
            executable_path: "a".into(),
            args: Vec::new(),
            operating_system: "linux".into(),
            cpu_architecture: "x86".into(),
        })),
    }
}

#[test]
fn parsed_event__trace_start_payload__then_kind_trace_start() {
    let event = event_with_payload(Payload::TraceStart(TraceStart {
        executable_path: "/bin/app".into(),
        args: vec!["--flag".into()],
        operating_system: "linux".into(),
        cpu_architecture: "x86_64".into(),
    }));

    let parsed = ParsedEvent::from_proto(event);
    assert_eq!(parsed.kind.as_str(), "TraceStart");
    assert_eq!(parsed.thread_id, 7);
    assert_eq!(parsed.timestamp_ns, 500);
    assert!(parsed.function_name().is_none());
}

#[test]
fn parsed_event__trace_end_payload__then_kind_trace_end() {
    let event = event_with_payload(Payload::TraceEnd(TraceEnd { exit_code: 0 }));
    let parsed = ParsedEvent::from_proto(event);
    assert_eq!(parsed.kind.as_str(), "TraceEnd");
    assert!(parsed.function_name().is_none());
}

#[test]
fn parsed_event__function_call_with_symbol__then_returns_symbol() {
    let event = event_with_payload(Payload::FunctionCall(FunctionCall {
        symbol: "foo".into(),
        address: 0,
        argument_registers: Default::default(),
        stack_shallow_copy: Vec::new(),
    }));
    let parsed = ParsedEvent::from_proto(event);
    assert_eq!(parsed.kind.as_str(), "FunctionCall");
    assert_eq!(parsed.function_name(), Some("foo"));
}

#[test]
fn parsed_event__function_return_with_whitespace_symbol__then_returns_none() {
    let event = event_with_payload(Payload::FunctionReturn(FunctionReturn {
        symbol: "   ".into(),
        address: 0,
        return_registers: Default::default(),
    }));
    let parsed = ParsedEvent::from_proto(event);
    assert_eq!(parsed.kind.as_str(), "FunctionReturn");
    assert!(parsed.function_name().is_none());
}

#[test]
fn parsed_event__signal_delivery_empty_name__then_name_is_none() {
    let event = event_with_payload(Payload::SignalDelivery(SignalDelivery {
        number: 9,
        name: "".into(),
        registers: Default::default(),
    }));

    let parsed = ParsedEvent::from_proto(event);
    assert_eq!(parsed.kind.as_str(), "SignalDelivery");
    match parsed.kind {
        ParsedEventKind::SignalDelivery { ref name } => assert!(name.is_none()),
        _ => panic!("expected signal delivery"),
    }
}

#[test]
fn parsed_event__missing_payload__then_kind_unknown() {
    let parsed = ParsedEvent::from_proto(Event {
        event_id: 42,
        thread_id: -1,
        timestamp: Some(Timestamp { seconds: -2, nanos: -100 }),
        payload: None,
    });

    assert_eq!(parsed.kind.as_str(), "Unknown");
    assert_eq!(parsed.thread_id, 0);
    assert_eq!(parsed.timestamp_ns, 0);
}

#[test]
fn parsed_event_kind__function_symbol_non_function__then_none() {
    let kind = ParsedEventKind::TraceStart;
    assert!(kind.function_symbol().is_none());
}

#[test]
fn parsed_event__timestamp_formula__then_seconds_times_billion_plus_nanos() {
    let parsed = ParsedEvent::from_proto(Event {
        event_id: 1,
        thread_id: 3,
        timestamp: Some(Timestamp { seconds: 2, nanos: 5 }),
        payload: None,
    });
    assert_eq!(parsed.timestamp_ns, 2_000_000_005);
    assert_eq!(parsed.thread_id, 3);
}

#[test]
fn parsed_event__timestamp_overflow__then_saturates() {
    let parsed = ParsedEvent::from_proto(Event {
        event_id: 1,
        thread_id: 1,
        timestamp: Some(Timestamp { seconds: i64::MAX, nanos: i32::MAX }),
        payload: None,
    });
    assert_eq!(parsed.timestamp_ns, u64::MAX);
}

#[test]
fn parsed_event__negative_nanos_only__then_seconds_kept() {
    let parsed = ParsedEvent::from_proto(Event {
        event_id: 1,
        thread_id: 1,
        timestamp: Some(Timestamp { seconds: 3, nanos: -7 }),
        payload: None,
    });
    assert_eq!(parsed.timestamp_ns, 3_000_000_000);
}

#[test]
fn parsed_event__symbol_with_inner_space__then_kept_untrimmed() {
    let event = event_with_payload(Payload::FunctionCall(FunctionCall {
        symbol: " foo bar ".into(),
        address: 0,
        argument_registers: Vec::new(),
        stack_shallow_copy: Vec::new(),
    }));
    let parsed = ParsedEvent::from_proto(event);
    assert_eq!(parsed.function_name(), Some(" foo bar "));
}

#[test]
fn parsed_event__unicode_white_space_symbol__then_none() {
    let event = event_with_payload(Payload::FunctionCall(FunctionCall {
        symbol: "\u{2003}\t\u{a0}\n".into(),
        address: 0,
        argument_registers: Vec::new(),
        stack_shallow_copy: Vec::new(),
    }));
    let parsed = ParsedEvent::from_proto(event);
    assert!(parsed.function_name().is_none());
}

#[test]
fn manifest_from_bytes__empty_input__then_returns_error() {
    let err = manifest_from(&[]).expect_err("expected error");
    match err {
        AtfError::Manifest(message) => assert!(message.contains("empty")),
        other => panic!("unexpected error: {other:?}"),
    }
}

#[test]
fn manifest_from_bytes__invalid_json__then_returns_manifest_error() {
    let err = manifest_from(b"not json").expect_err("expected error");
    match err {
        AtfError::Manifest(message) => assert!(!message.is_empty()),
        other => panic!("unexpected error: {other:?}"),
    }
}

#[test]
fn manifest_from_bytes__end_before_start__then_returns_manifest_error() {
    let bytes = manifest_json(1000, 999, 20, "");

    let err = manifest_from(&bytes).expect_err("expected error");
    match err {
        AtfError::Manifest(message) => assert!(message.contains("end time")),
        other => panic!("unexpected error: {other:?}"),
    }
}

#[test]
fn manifest_info__valid_payload__then_parses_and_computes_fields() {
    let bytes = manifest_json(100, 600, 20, ",\"spanCount\":null,\"modules\":null");

    let manifest = manifest_from(&bytes).expect("manifest");
    assert_eq!(manifest.duration_ns(), 500);
    assert_eq!(manifest.resolved_span_count(), 10);
    assert_eq!(manifest.modules, Vec::<String>::new());
    assert_eq!(manifest.os, "linux");
}

#[test]
fn manifest_info__resolved_span_count_with_value__then_returns_value() {
    let bytes = manifest_json(100, 600, 20, ",\"spanCount\":7");

    let manifest = manifest_from(&bytes).expect("manifest");
    assert_eq!(manifest.resolved_span_count(), 7);
}

#[test]
fn manifest_info__equal_start_and_end__then_accepted_with_zero_duration() {
    let bytes = manifest_json(300, 300, 3, ",\"modules\":[\"a\",\"b\"]");
    let manifest = manifest_from(&bytes).expect("manifest");
    assert_eq!(manifest.duration_ns(), 0);
    assert_eq!(manifest.resolved_span_count(), 1);
    assert_eq!(manifest.modules, vec!["a".to_string(), "b".to_string()]);
}

#[test]
fn atf_reader_open__missing_directory__then_trace_not_found() {
    let err = AtfReader::open(
        "/tmp/does/not/exist".to_string(),
        false,
        FileRead::Missing,
        Err("not read".to_string()),
    )
    .expect_err("expected error");
    assert!(matches!(err, AtfError::TraceNotFound(_)));
}

#[test]
fn atf_reader_open__path_is_file__then_trace_not_found() {
    let err = AtfReader::open(
        "/tmp/some-file".to_string(),
        false,
        FileRead::Failed("Not a directory".to_string()),
        Err("not read".to_string()),
    )
    .expect_err("expected error");
    match err {
        AtfError::TraceNotFound(path) => assert_eq!(path, "/tmp/some-file"),
        other => panic!("unexpected error: {other:?}"),
    }
}

#[test]
fn atf_reader_open__manifest_missing__then_manifest_not_found() {
    let err = AtfReader::open(
        "/tmp/session".to_string(),
        true,
        FileRead::Missing,
        Err("not read".to_string()),
    )
    .expect_err("expected error");
    match err {
        AtfError::ManifestNotFound(path) => {
            assert!(path.ends_with("trace.json"), "path: {path}");
            assert_eq!(path, "/tmp/session/trace.json");
        }
        other => panic!("unexpected error: {other:?}"),
    }
}

#[test]
fn atf_reader_open__manifest_read_io_error__then_returns_io_error() {
    let err = AtfReader::open(
        "/tmp/session/".to_string(),
        true,
        FileRead::Failed("Is a directory".to_string()),
        Err("not read".to_string()),
    )
    .expect_err("expected error");
    match err {
        AtfError::Io { path, cause } => {
            assert!(path.ends_with("trace.json"));
            assert_eq!(path, "/tmp/session/trace.json");
            assert_eq!(cause, "Is a directory");
        }
        other => panic!("unexpected error: {other:?}"),
    }
}

#[test]
fn atf_reader_open__manifest_validation_error__then_propagates() {
    let payload = format!(
        "{{\"os\":\"linux\",\"arch\":\"x86_64\",\"pid\":1,\"sessionId\":1,\
         \"timeStartNs\":200,\"timeEndNs\":100,\"eventCount\":0,\"bytesWritten\":0}}"
    )
    .into_bytes();

    let err = open_with_manifest("/tmp/session", payload).expect_err("expected error");
    match err {
        AtfError::Manifest(message) => assert!(message.contains("end time")),
        other => panic!("unexpected error: {other:?}"),
    }
}

#[test]
fn atf_reader_open__valid_manifest__then_loads_manifest() {
    let reader = open_with_manifest("/tmp/session", sample_manifest(2)).expect("reader");
    assert_eq!(reader.manifest().event_count, 2);
    assert_eq!(reader.trace_dir(), "/tmp/session");
    assert!(reader.manifest_path().ends_with("trace.json"));
    assert_eq!(reader.events_path(), "/tmp/session/events.bin");
}

#[test]
fn event_stream__missing_events__then_returns_not_found() {
    let reader = open_with_manifest("/tmp/session", sample_manifest(0)).expect("reader");

    let err = match reader.event_stream(FileRead::Missing) {
        Err(err) => err,
        Ok(_) => panic!("expected error"),
    };
    assert!(matches!(err, AtfError::EventsNotFound(_)));
}

#[test]
fn event_stream__io_error__then_returns_io_variant() {
    let reader = open_with_manifest("/tmp/session", sample_manifest(0)).expect("reader");

    let err = match reader.event_stream(FileRead::Failed("Is a directory".to_string())) {
        Err(err) => err,
        Ok(_) => panic!("expected error"),
    };
    match err {
        AtfError::Io { path, .. } => assert!(path.ends_with("events.bin")),
        other => panic!("unexpected error: {other:?}"),
    }
}

#[test]
fn event_stream__decode_error__then_consumes_stream() {
    let reader = open_with_manifest("/tmp/session", sample_manifest(1)).expect("reader");
    let mut stream = reader
        .event_stream(FileRead::Loaded(vec![0xFF, 0xFF]))
        .expect("stream");

    let err = stream.next().expect("item").expect_err("expected error");
    assert!(matches!(err, AtfError::Decode(_)));
    assert!(stream.next().is_none());
    assert!(stream.is_empty());
}

#[test]
fn event_stream__valid_events__then_load_all_events() {
    let reader = open_with_manifest("/tmp/session", sample_manifest(1)).expect("reader");

    let events = reader
        .load_all_events(FileRead::Loaded(log_of(&[sample_event()])))
        .expect("events");
    assert_eq!(events.len(), 1);
    assert_eq!(events[0].kind.as_str(), "TraceStart");
}

#[test]
fn event_stream__empty_data__then_is_empty() {
    let stream = EventStream::new(Vec::new());
    assert!(stream.is_empty());
}

#[test]
fn event_stream__empty_file__then_zero_events() {
    let reader = open_with_manifest("/tmp/session", sample_manifest(0)).expect("reader");
    let events = reader.load_all_events(FileRead::Loaded(Vec::new())).expect("events");
    assert!(events.is_empty());
}

#[test]
fn event_stream__fault_after_good_records__then_no_partial_result() {
    let reader = open_with_manifest("/tmp/session", sample_manifest(2)).expect("reader");
    let mut data = log_of(&[sample_event(), sample_event()]);
    data.extend_from_slice(&[0x05, 0x08]);
    let err = reader.load_all_events(FileRead::Loaded(data.clone())).expect_err("fault");
    assert_eq!(err, AtfError::Decode(DecodeFault::BufferUnderflow));

    let mut stream = EventStream::new(data);
    assert!(matches!(stream.next(), Some(Ok(_))));
    assert!(matches!(stream.next(), Some(Ok(_))));
    assert!(matches!(stream.next(), Some(Err(AtfError::Decode(_)))));
    assert!(stream.next().is_none());
    assert!(stream.is_empty());
}

#[test]
fn codec__full_record__then_every_field_comes_back() {
    let event = Event {
        event_id: 77,
        thread_id: 12,
        timestamp: Some(Timestamp { seconds: 3, nanos: 250 }),
        payload: Some(Payload::FunctionCall(FunctionCall {
            symbol: "compute".into(),
            address: 0xdead_beef,
            argument_registers: vec![("x0".to_string(), 1), ("x1".to_string(), u64::MAX)],
            stack_shallow_copy: vec![1, 2, 3, 255],
        })),
    };
    let decoded = decode_record(&record_body(&event)).expect("decode");
    assert_eq!(decoded, event);
}

#[test]
fn codec__each_payload_kind__then_round_trips() {
    let payloads = vec![
        Payload::TraceStart(TraceStart {
            executable_path: "/bin/app".into(),
            args: vec!["--flag".into(), "".into(), "päth".into()],
            operating_system: "linux".into(),
            cpu_architecture: "x86_64".into(),
        }),
        Payload::TraceEnd(TraceEnd { exit_code: -3 }),
        Payload::FunctionReturn(FunctionReturn {
            symbol: "ret".into(),
            address: 9,
            return_registers: vec![("rax".to_string(), 4)],
        }),
        Payload::SignalDelivery(SignalDelivery {
            number: 11,
            name: "SIGSEGV".into(),
            registers: vec![("pc".to_string(), 0x1000)],
        }),
    ];
    for payload in payloads {
        let event = Event {
            event_id: 5,
            thread_id: -4,
            timestamp: Some(Timestamp { seconds: -1, nanos: 999_999_999 }),
            payload: Some(payload),
        };
        let decoded = decode_record(&record_body(&event)).expect("decode");
        assert_eq!(decoded, event);
    }
}

#[test]
fn codec__empty_body__then_default_record() {
    let decoded = decode_record(&[]).expect("decode");
    assert_eq!(
        decoded,
        Event { event_id: 0, thread_id: 0, timestamp: None, payload: None }
    );
    let mut stream = EventStream::new(vec![0x00]);
    let parsed = stream.next().expect("item").expect("event");
    assert_eq!(parsed.kind.as_str(), "Unknown");
    assert_eq!(parsed.timestamp_ns, 0);
    assert!(stream.is_empty());
}

#[test]
fn codec__unknown_fields__then_skipped() {
    let mut body = Vec::new();
    prost::encoding::uint64::encode(1, &9, &mut body);
    prost::encoding::uint64::encode(99, &12345, &mut body);
    prost::encoding::fixed32::encode(100, &7, &mut body);
    prost::encoding::fixed64::encode(101, &8, &mut body);
    prost::encoding::string::encode(102, &"ignored".to_string(), &mut body);
    encode_key(103, WireType::StartGroup, &mut body);
    prost::encoding::uint64::encode(1, &1, &mut body);
    encode_key(104, WireType::StartGroup, &mut body);
    encode_key(104, WireType::EndGroup, &mut body);
    encode_key(103, WireType::EndGroup, &mut body);
    prost::encoding::int32::encode(2, &3, &mut body);
    let decoded = decode_record(&body).expect("decode");
    assert_eq!(decoded.event_id, 9);
    assert_eq!(decoded.thread_id, 3);
    assert!(decoded.payload.is_none());
}

#[test]
fn codec__unknown_payload_tag__then_kind_unknown() {
    let mut body = Vec::new();
    prost::encoding::int32::encode(2, &7, &mut body);
    put_nested(15, &[0x08, 0x01], &mut body);
    let decoded = decode_record(&body).expect("decode");
    let parsed = ParsedEvent::from_proto(decoded);
    assert_eq!(parsed.kind.as_str(), "Unknown");
    assert_eq!(parsed.thread_id, 7);
}

#[test]
fn codec__last_payload_wins_and_same_kind_merges() {
    let mut first = Vec::new();
    prost::encoding::string::encode(1, &"foo".to_string(), &mut first);
    let mut second = Vec::new();
    prost::encoding::uint64::encode(2, &44, &mut second);
    let mut body = Vec::new();
    put_nested(12, &first, &mut body);
    put_nested(12, &second, &mut body);
    let decoded = decode_record(&body).expect("decode");
    match decoded.payload {
        Some(Payload::FunctionCall(call)) => {
            assert_eq!(call.symbol, "foo");
            assert_eq!(call.address, 44);
        }
        other => panic!("unexpected payload: {other:?}"),
    }

    let mut body = Vec::new();
    put_nested(12, &first, &mut body);
    put_nested(13, &second, &mut body);
    put_nested(12, &second, &mut body);
    let decoded = decode_record(&body).expect("decode");
    match decoded.payload {
        Some(Payload::FunctionCall(call)) => {
            assert_eq!(call.symbol, "");
            assert_eq!(call.address, 44);
        }
        other => panic!("unexpected payload: {other:?}"),
    }
}

#[test]
fn codec__negative_thread_id__then_ten_byte_varint_truncates() {
    let mut body = Vec::new();
    prost::encoding::int32::encode(2, &-1, &mut body);
    assert_eq!(body.len(), 11);
    let decoded = decode_record(&body).expect("decode");
    assert_eq!(decoded.thread_id, -1);
    assert_eq!(ParsedEvent::from_proto(decoded).thread_id, 0);
}

#[test]
fn codec__each_fault__then_reported() {
    // a key whose varint never ends
    assert_eq!(decode_record(&[0x80]), Err(DecodeFault::InvalidVarint));
    // eleven bytes of continuation
    assert_eq!(decode_record(&[0xFF; 11]), Err(DecodeFault::InvalidVarint));
    // tenth byte above one
    let mut long = vec![0xFF; 9];
    long.push(0x02);
    assert_eq!(decode_record(&long), Err(DecodeFault::InvalidVarint));
    // key above 32 bits
    assert_eq!(
        decode_record(&[0x80, 0x80, 0x80, 0x80, 0x10]),
        Err(DecodeFault::InvalidKey)
    );
    // wire type 6 and 7
    assert_eq!(decode_record(&[0x0E]), Err(DecodeFault::InvalidWireType));
    assert_eq!(decode_record(&[0x0F]), Err(DecodeFault::InvalidWireType));
    // tag zero
    assert_eq!(decode_record(&[0x00]), Err(DecodeFault::InvalidTag));
    // event id as a length-delimited field
    assert_eq!(decode_record(&[0x0A, 0x00]), Err(DecodeFault::UnexpectedWireType));
    // a length that runs past the end
    assert_eq!(decode_record(&[0x1A, 0x05, 0x08]), Err(DecodeFault::BufferUnderflow));
    // fixed fields cut short
    assert_eq!(decode_record(&[0x7D, 0x00, 0x00]), Err(DecodeFault::BufferUnderflow));
    assert_eq!(decode_record(&[0x79, 0x00]), Err(DecodeFault::BufferUnderflow));
    // an end-group key without a group, and one under another tag
    assert_eq!(decode_record(&[0x7C]), Err(DecodeFault::UnexpectedEndGroup));
    assert_eq!(decode_record(&[0x7B, 0x84, 0x01]), Err(DecodeFault::UnexpectedEndGroup));
    // a symbol that is no UTF-8
    assert_eq!(
        decode_record(&[0x62, 0x03, 0x0A, 0x01, 0xFF]),
        Err(DecodeFault::InvalidString)
    );
}

#[test]
fn codec__group_nesting__then_limited() {
    fn nested(levels: usize) -> Vec<u8> {
        let mut body = Vec::new();
        for _ in 0..levels {
            encode_key(50, WireType::StartGroup, &mut body);
        }
        for _ in 0..levels {
            encode_key(50, WireType::EndGroup, &mut body);
        }
        body
    }
    assert!(decode_record(&nested(99)).is_ok());
    assert_eq!(decode_record(&nested(100)), Err(DecodeFault::RecursionLimit));
}

#[test]
fn wire__varint_values__then_match_the_encoder() {
    for value in [0u64, 1, 127, 128, 300, 16_383, 16_384, u32::MAX as u64, u64::MAX - 1, u64::MAX]
    {
        let mut bytes = vec![0xAA];
        encode_varint(value, &mut bytes);
        let end = bytes.len();
        bytes.push(0x55);
        assert_eq!(read_varint(&bytes, 1), Ok((value, end)));
    }
    assert_eq!(read_varint(&[0x01], 1), Err(DecodeFault::InvalidVarint));
}

#[test]
fn wire__key_and_field__then_tag_wire_and_extent() {
    let mut bytes = Vec::new();
    prost::encoding::string::encode(300, &"abc".to_string(), &mut bytes);
    let (key, next) = read_key(&bytes, 0).expect("key");
    assert_eq!(key.tag, 300);
    assert_eq!(key.wire, 2);
    assert_eq!(next, 2);
    let field = read_field(&bytes, 0, 5).expect("field");
    assert_eq!((field.start, field.end, field.next), (3, 6, 6));
    assert_eq!(&bytes[field.start..field.end], b"abc");
    assert_eq!(read_field(&bytes, 0, 0).map(|f| f.next), Err(DecodeFault::RecursionLimit));
}

#[test]
fn atf_reader__valid_manifest__then_parsed() {
    let events = vec![
        Event {
            event_id: 100,
            thread_id: 1,
            timestamp: Some(Timestamp { seconds: 0, nanos: 100 }),
            payload: Some(Payload::TraceStart(TraceStart {
                executable_path: "/bin/test".into(),
                args: vec!["--flag".into()],
                operating_system: "linux".into(),
                cpu_architecture: "x86_64".into(),
            })),
        },
        Event {
            event_id: 200,
            thread_id: 1,
            timestamp: Some(Timestamp { seconds: 0, nanos: 200 }),
            payload: Some(Payload::FunctionCall(FunctionCall {
                symbol: "foo".into(),
                address: 0,
                argument_registers: Vec::new(),
                stack_shallow_copy: Vec::new(),
            })),
        },
        Event {
            event_id: 300,
            thread_id: 1,
            timestamp: Some(Timestamp { seconds: 0, nanos: 300 }),
            payload: Some(Payload::FunctionReturn(FunctionReturn {
                symbol: "foo".into(),
                address: 0,
                return_registers: Vec::new(),
            })),
        },
        Event {
            event_id: 400,
            thread_id: 1,
            timestamp: Some(Timestamp { seconds: 0, nanos: 400 }),
            payload: Some(Payload::TraceEnd(TraceEnd { exit_code: 0 })),
        },
    ];
    let manifest = format!(
        "{{\"os\":\"linux\",\"arch\":\"x86_64\",\"pid\":4242,\"sessionId\":1,\
         \"timeStartNs\":100,\"timeEndNs\":2100,\"eventCount\":{},\"bytesWritten\":4096,\
         \"modules\":[\"test_mod\"],\"spanCount\":2,\"extra\":true}}",
        events.len()
    )
    .into_bytes();

    let reader = open_with_manifest("/traces/traceA", manifest).expect("reader");
    let manifest = reader.manifest();

    assert_eq!(manifest.os, "linux");
    assert_eq!(manifest.arch, "x86_64");
    assert_eq!(manifest.event_count, 4);
    assert_eq!(manifest.resolved_span_count(), 2);
    assert_eq!(manifest.duration_ns(), 2000);

    let parsed_events = reader
        .load_all_events(FileRead::Loaded(log_of(&events)))
        .expect("events parsed");
    assert_eq!(parsed_events.len(), 4);
}

#[test]
fn atf_reader__missing_manifest__then_error() {
    let err = AtfReader::open(
        "/traces/traceB".to_string(),
        true,
        FileRead::Missing,
        Err(String::new()),
    )
    .expect_err("expected error");
    match err {
        AtfError::ManifestNotFound(path) => assert!(path.ends_with("trace.json")),
        other => panic!("unexpected error variant: {:?}", other),
    }
}
