#![allow(non_snake_case)]

use query_engine::cli::{
    attached_session_name, build_setting, chars_of, describe_symbol, function_id_string,
    session_name, source_string,
};
use query_engine::handlers::events::{
    EventOrderBy, EventTypeFilter, EventsGetHandler, EventsGetParams,
};
use query_engine::handlers::spans::{SpansListHandler, SpansListParams};
use query_engine::handlers::trace_info::{TraceInfoHandler, TraceInfoParams};
use query_engine::server::{JsonRpcError, JsonRpcServer, Method};
use query_engine::symbols::{
    parse_function_id, read_function_id, NumberFault, ResolvedSymbol, SymbolResolveResult,
};
use query_engine::tracer::{
    get_current_metrics, get_registry_implementation_name, should_use_cpp_registry, ProcessState,
    RegistryMetrics,
};

#[test]
fn events_handler__register__then_handler_available() {
    let mut server = JsonRpcServer::new();
    assert!(!server.contains("events.get"));

    EventsGetHandler::new("/traces".to_string()).register(&mut server);

    assert!(server.contains("events.get"));
    assert!(!server.contains("spans.list"));
}

#[test]
fn spans_handler__register__then_handler_available() {
    let mut server = JsonRpcServer::new();

    SpansListHandler::new("/traces".to_string()).register(&mut server);

    assert!(server.contains("spans.list"));
    assert!(!server.contains("events.get"));
    assert!(!server.contains("spans.List"));
}

#[test]
fn json_rpc_server__trace_info_handler_registered__then_serves_request() {
    let mut server = JsonRpcServer::new();
    TraceInfoHandler::new("/traces".to_string(), 4, 60_000).register(&mut server);
    assert!(server.contains("trace.info"));
    assert!(!server.contains("trace.information"));
    assert!(!server.contains(""));
    assert_eq!(Method::from_name("trace.info"), Some(Method::TraceInfo));
    assert_eq!(Method::from_name("events.get"), Some(Method::EventsGet));
    assert_eq!(Method::from_name("spans.list"), Some(Method::SpansList));
    assert_eq!(Method::from_name("spans"), None);
    for method in [Method::EventsGet, Method::SpansList, Method::TraceInfo] {
        assert_eq!(Method::from_name(method.as_str()), Some(method));
    }
}

#[test]
fn json_rpc_error__codes_and_messages() {
    let e = JsonRpcError::invalid_params("detail");
    assert_eq!((e.code, e.message.as_str(), e.data.as_deref()), (-32602, "Invalid params", Some("detail")));
    let e = JsonRpcError::trace_not_found();
    assert_eq!((e.code, e.message.as_str(), e.data.as_deref()), (-32000, "Trace not found", None));
    let e = JsonRpcError::internal("why");
    assert_eq!((e.code, e.message.as_str(), e.data.as_deref()), (-32603, "Internal error", Some("why")));
}

#[test]
fn symbol_resolve_result__codes() {
    assert_eq!(SymbolResolveResult::from(0), SymbolResolveResult::Resolved);
    assert_eq!(SymbolResolveResult::from(-1), SymbolResolveResult::NotFound);
    assert_eq!(SymbolResolveResult::from(-2), SymbolResolveResult::NoDsym);
    assert_eq!(SymbolResolveResult::from(-3), SymbolResolveResult::Error);
    assert_eq!(SymbolResolveResult::from(-4), SymbolResolveResult::InvalidArg);
    assert_eq!(SymbolResolveResult::from(-5), SymbolResolveResult::Error);
    assert_eq!(SymbolResolveResult::from(1), SymbolResolveResult::Error);
    assert_eq!(SymbolResolveResult::from(i32::MIN), SymbolResolveResult::Error);
    for code in -4..=0 {
        assert_eq!(SymbolResolveResult::from(code).code(), code);
    }
}

fn std_parse(s: &str) -> Result<u64, String> {
    let s = s.trim();
    let s = s.strip_prefix("0x").or_else(|| s.strip_prefix("0X")).unwrap_or(s);
    u64::from_str_radix(s, 16).map_err(|e| format!("Invalid function_id: {}", e))
}

#[test]
fn parse_function_id__then_as_the_standard_parser() {
    let texts = [
        "0x0000001c00000001",
        "1c00000001",
        "  0XdeadBEEF\t",
        "0",
        "0x0",
        "0x",
        "",
        "   ",
        "+",
        "-",
        "+1f",
        "-1f",
        "0x+1f",
        "+0x1f",
        "ffffffffffffffff",
        "0xffffffffffffffff",
        "10000000000000000",
        "0x10000000000000000",
        "00000000000000000000000000000001",
        "fffffffffffffffffg",
        "ffffffffffffffffg",
        "fffffffffffffffg",
        "g",
        "12 34",
        "0x0x1",
        "１２",
        "é",
        "0xX1",
        "1_000",
        "++1",
        "abcdefABCDEF",
        "x1",
        "0x 1",
    ];
    for text in texts {
        assert_eq!(parse_function_id(text), std_parse(text), "text: {text:?}");
    }
    assert_eq!(parse_function_id("0x0000001c00000001"), Ok(0x0000_001c_0000_0001));
    assert_eq!(read_function_id(""), Err(NumberFault::Empty));
    assert_eq!(read_function_id("0x"), Err(NumberFault::Empty));
    assert_eq!(read_function_id("zz"), Err(NumberFault::InvalidDigit));
    assert_eq!(read_function_id("10000000000000000"), Err(NumberFault::Overflow));
}

#[test]
fn test_environment_override() {
    assert!(should_use_cpp_registry(Some("true"), false));
    assert!(should_use_cpp_registry(Some("1"), false));
    assert!(should_use_cpp_registry(Some("yes"), false));
    assert!(!should_use_cpp_registry(Some("false"), true));
    assert!(!should_use_cpp_registry(Some("0"), true));
    assert!(!should_use_cpp_registry(Some("no"), true));
    for other in ["default", "", "TRUE", "Yes", " 1", "2"] {
        assert!(should_use_cpp_registry(Some(other), true), "{other:?}");
        assert!(!should_use_cpp_registry(Some(other), false), "{other:?}");
    }
    assert!(should_use_cpp_registry(None, true));
    assert!(!should_use_cpp_registry(None, false));
    assert_eq!(get_registry_implementation_name(true), "cpp");
    assert_eq!(get_registry_implementation_name(false), "c");
}

#[test]
fn test_metrics_collection() {
    let mut metrics = RegistryMetrics::new();
    metrics.record_registration(1000);
    metrics.record_registration(2000);

    assert_eq!(metrics.registration_count, 2);
    assert_eq!(metrics.registration_time_ns, 3000);
    let average = metrics.registration_time_ns as f64 / metrics.registration_count as f64;
    assert_eq!(average, 1500.0);

    metrics.record_lookup(7);
    assert_eq!((metrics.lookup_count, metrics.lookup_time_ns), (1, 7));
    metrics.record_lookup(u64::MAX);
    assert_eq!((metrics.lookup_count, metrics.lookup_time_ns), (2, 6));

    let other = RegistryMetrics::new();
    assert_eq!(get_current_metrics(false, &metrics, &other), &metrics);
    assert_eq!(get_current_metrics(true, &metrics, &other), &other);
}

#[test]
fn process_state__codes() {
    for code in 0..=8u32 {
        let state = ProcessState::from_code(code).expect("state");
        assert_eq!(state.as_code(), code);
    }
    assert_eq!(ProcessState::from_code(6), Some(ProcessState::Running));
    assert_eq!(ProcessState::from_code(9), None);
}

#[test]
fn handlers__session_dir__then_trimmed_name_below_the_root() {
    let events = EventsGetHandler::new("/traces".to_string());
    let request = EventsGetParams::for_trace("  run-1 \n".to_string());
    assert_eq!(events.session_dir(&request), "/traces/run-1");
    let spans = SpansListHandler::new("/traces/".to_string());
    let request = SpansListParams::for_trace("run 2".to_string());
    assert_eq!(spans.session_dir(&request), "/traces/run 2");
    let info = TraceInfoHandler::new("".to_string(), 1, 1);
    let request = TraceInfoParams::for_trace("\u{a0}run3".to_string());
    assert_eq!(info.session_dir(&request), "run3");
}

#[test]
fn event_filters__names__then_camel_case() {
    let kinds = [
        (EventTypeFilter::TraceStart, "traceStart"),
        (EventTypeFilter::TraceEnd, "traceEnd"),
        (EventTypeFilter::FunctionCall, "functionCall"),
        (EventTypeFilter::FunctionReturn, "functionReturn"),
        (EventTypeFilter::SignalDelivery, "signalDelivery"),
        (EventTypeFilter::Unknown, "unknown"),
    ];
    for (kind, name) in kinds {
        assert_eq!(kind.as_str(), name);
        assert_eq!(EventTypeFilter::from_name(name), Some(kind));
    }
    assert_eq!(EventTypeFilter::from_name("not-a-type"), None);
    assert_eq!(EventTypeFilter::from_name("TraceStart"), None);
    assert_eq!(EventOrderBy::from_name("timestamp"), Some(EventOrderBy::Timestamp));
    assert_eq!(EventOrderBy::from_name("threadId"), Some(EventOrderBy::ThreadId));
    assert_eq!(EventOrderBy::from_name("thread_id"), None);
}

fn std_build_setting(settings: &str, name: &str) -> Option<String> {
    let prefix = format!("{name} = ");
    let mut found = None;
    for line in settings.lines() {
        let line = line.trim();
        if line.starts_with(&prefix) {
            found = Some(line.strip_prefix(prefix.as_str()).unwrap().to_string());
        }
    }
    found
}

#[test]
fn cli__build_setting__then_value_of_the_last_line_that_sets_it() {
    let output = "Build settings for action build and target Demo:\n    ACTION = build\n                      BUILT_PRODUCTS_DIR = /tmp/Build/Products/Debug\n\tEXECUTABLE_NAME = Demo App                   \r\n    EXECUTABLE_NAME_SUFFIX = x\n  BUILT_PRODUCTS_DIR =\n\n                  BUILT_PRODUCTS_DIR = /second/dir  \n    FOO= bar\nFOO =bar\n FOO = \u{a0}\n                  NAME = é=\u{3000}\nLAST = no line feed";
    let names = [
        "BUILT_PRODUCTS_DIR",
        "EXECUTABLE_NAME",
        "EXECUTABLE_NAME_SUFFIX",
        "ACTION",
        "FOO",
        "NAME",
        "LAST",
        "MISSING",
        "",
        "Build settings for action build and target Demo:",
    ];
    for name in names {
        assert_eq!(build_setting(output, name), std_build_setting(output, name), "name: {name:?}");
    }
    assert_eq!(build_setting(output, "BUILT_PRODUCTS_DIR").as_deref(), Some("/second/dir"));
    assert_eq!(build_setting(output, "EXECUTABLE_NAME").as_deref(), Some("Demo App"));
    assert_eq!(build_setting(output, "FOO").as_deref(), None);
    assert_eq!(build_setting(output, "LAST").as_deref(), Some("no line feed"));
    for text in ["", "\n", "A = 1", "A = 1\n", "\nA = 1\n\n", " A = ", "A = \nA = 2\r"] {
        assert_eq!(build_setting(text, "A"), std_build_setting(text, "A"), "text: {text:?}");
    }
    assert_eq!(chars_of("aé\u{10000}"), vec!['a', 'é', '\u{10000}']);
}

#[test]
fn cli__session_names() {
    assert_eq!(session_name(1_700_000_000, "demo"), "session_1700000000_demo");
    assert_eq!(session_name(0, ""), "session_0_");
    assert_eq!(attached_session_name(12, 4242), "session_12_pid_4242");
}

#[test]
fn cli__symbol_lines__then_as_printed() {
    assert_eq!(function_id_string(0x1c_0000_0001), format!("0x{:016x}", 0x1c_0000_0001u64));
    assert_eq!(function_id_string(0), "0x0000000000000000");
    assert_eq!(function_id_string(u64::MAX), "0xffffffffffffffff");
    assert_eq!(function_id_string(0x0123_4567_89ab_cdef), "0x0123456789abcdef");
    assert_eq!(source_string("a.c", 0, 7), "a.c");
    assert_eq!(source_string("a.c", 12, 0), "a.c:12");
    assert_eq!(source_string("a.c", 12, 7), "a.c:12:7");
    let mut symbol = ResolvedSymbol {
        function_id: 0x1c_0000_0001,
        name_mangled: "_ZN3foo3barEv".into(),
        name_demangled: "foo::bar()".into(),
        module: Some("/usr/lib/libfoo.dylib".into()),
        source_file: Some("foo.cpp".into()),
        source_line: 10,
        source_column: 3,
    };
    assert_eq!(
        describe_symbol(&symbol),
        vec![
            "Function ID: 0x0000001c00000001",
            "Name:        foo::bar()",
            "Mangled:     _ZN3foo3barEv",
            "Module:      /usr/lib/libfoo.dylib",
            "Source:      foo.cpp:10:3",
        ]
    );
    symbol.name_mangled = symbol.name_demangled.clone();
    symbol.module = None;
    symbol.source_file = None;
    assert_eq!(
        describe_symbol(&symbol),
        vec!["Function ID: 0x0000001c00000001", "Name:        foo::bar()"]
    );
}
