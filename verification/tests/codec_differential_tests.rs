#![allow(non_snake_case)]

use std::collections::HashMap;

use prost::bytes::{Buf, BufMut};
use prost::encoding::{encode_key, encode_varint, skip_field, DecodeContext, WireType};
use prost::{DecodeError, Message};
use query_engine::atf::codec::decode_record;
use query_engine::atf::encoding::{encode_log, encode_record, write_varint};
use query_engine::atf::error::AtfError;
use query_engine::atf::event::{
    Event, FunctionCall, FunctionReturn, ParsedEvent, Payload, SignalDelivery, Timestamp,
    TraceEnd, TraceStart,
};
use query_engine::atf::reader::EventStream;

fn put_text(tag: u32, text: &str, out: &mut Vec<u8>) {
    if !text.is_empty() {
        prost::encoding::string::encode(tag, &text.to_string(), out);
    }
}

fn put_u64(tag: u32, value: u64, out: &mut Vec<u8>) {
    if value != 0 {
        prost::encoding::uint64::encode(tag, &value, out);
    }
}

fn put_i32(tag: u32, value: i32, out: &mut Vec<u8>) {
    if value != 0 {
        prost::encoding::int32::encode(tag, &value, out);
    }
}

fn put_nested(tag: u32, body: &[u8], out: &mut Vec<u8>) {
    encode_key(tag, WireType::LengthDelimited, out);
    encode_varint(body.len() as u64, out);
    out.extend_from_slice(body);
}

fn put_registers(tag: u32, registers: &[(String, u64)], out: &mut Vec<u8>) {
    for (name, value) in registers {
        let mut entry = Vec::new();
        put_text(1, name, &mut entry);
        put_u64(2, *value, &mut entry);
        put_nested(tag, &entry, out);
    }
}

fn payload_bytes(payload: &Payload) -> (u32, Vec<u8>) {
    let mut body = Vec::new();
    match payload {
        Payload::TraceStart(m) => {
            put_text(1, &m.executable_path, &mut body);
            for arg in &m.args {
                prost::encoding::string::encode(2, arg, &mut body);
            }
            put_text(3, &m.operating_system, &mut body);
            put_text(4, &m.cpu_architecture, &mut body);
            (10, body)
        }
        Payload::TraceEnd(m) => {
            put_i32(1, m.exit_code, &mut body);
            (11, body)
        }
        Payload::FunctionCall(m) => {
            put_text(1, &m.symbol, &mut body);
            put_u64(2, m.address, &mut body);
            put_registers(3, &m.argument_registers, &mut body);
            if !m.stack_shallow_copy.is_empty() {
                prost::encoding::bytes::encode(4, &m.stack_shallow_copy, &mut body);
            }
            (12, body)
        }
        Payload::FunctionReturn(m) => {
            put_text(1, &m.symbol, &mut body);
            put_u64(2, m.address, &mut body);
            put_registers(3, &m.return_registers, &mut body);
            (13, body)
        }
        Payload::SignalDelivery(m) => {
            put_i32(1, m.number, &mut body);
            put_text(2, &m.name, &mut body);
            put_registers(3, &m.registers, &mut body);
            (14, body)
        }
    }
}

/// The body of a record as a conforming encoder writes it.
fn record_body(event: &Event) -> Vec<u8> {
    let mut body = Vec::new();
    put_u64(1, event.event_id, &mut body);
    put_i32(2, event.thread_id, &mut body);
    if let Some(ts) = &event.timestamp {
        let stamp = prost_types::Timestamp { seconds: ts.seconds, nanos: ts.nanos };
        prost::encoding::message::encode(3, &stamp, &mut body);
    }
    if let Some(payload) = &event.payload {
        let (tag, inner) = payload_bytes(payload);
        put_nested(tag, &inner, &mut body);
    }
    body
}

/// The record with its length in front, as it stands in the event file.
fn framed(event: &Event) -> Vec<u8> {
    let body = record_body(event);
    let mut out = Vec::new();
    encode_varint(body.len() as u64, &mut out);
    out.extend_from_slice(&body);
    out
}

fn log_of(events: &[Event]) -> Vec<u8> {
    let mut out = Vec::new();
    for event in events {
        out.extend_from_slice(&framed(event));
    }
    out
}


// The messages of the log written against the decoder of the outside crate,
// field by field, to hold the library's decoder against it.

#[derive(Debug, Default, Clone, PartialEq)]
struct WireTraceStart {
    executable_path: String,
    args: Vec<String>,
    operating_system: String,
    cpu_architecture: String,
}

#[derive(Debug, Default, Clone, PartialEq)]
struct WireTraceEnd {
    exit_code: i32,
}

#[derive(Debug, Default, Clone, PartialEq)]
struct WireFunctionCall {
    symbol: String,
    address: u64,
    argument_registers: HashMap<String, u64>,
    stack_shallow_copy: Vec<u8>,
}

#[derive(Debug, Default, Clone, PartialEq)]
struct WireFunctionReturn {
    symbol: String,
    address: u64,
    return_registers: HashMap<String, u64>,
}

#[derive(Debug, Default, Clone, PartialEq)]
struct WireSignalDelivery {
    number: i32,
    name: String,
    registers: HashMap<String, u64>,
}

#[derive(Debug, Clone, PartialEq)]
enum WirePayload {
    TraceStart(WireTraceStart),
    TraceEnd(WireTraceEnd),
    FunctionCall(WireFunctionCall),
    FunctionReturn(WireFunctionReturn),
    SignalDelivery(WireSignalDelivery),
}

#[derive(Debug, Default, Clone, PartialEq)]
struct WireEvent {
    event_id: u64,
    thread_id: i32,
    timestamp: Option<prost_types::Timestamp>,
    payload: Option<WirePayload>,
}

fn merge_registers(
    wire_type: WireType,
    registers: &mut HashMap<String, u64>,
    buf: &mut impl Buf,
    ctx: DecodeContext,
) -> Result<(), DecodeError> {
    let _ = wire_type;
    prost::encoding::hash_map::merge(
        prost::encoding::string::merge,
        prost::encoding::uint64::merge,
        registers,
        buf,
        ctx,
    )
}

impl Message for WireTraceStart {
    fn encode_raw(&self, _buf: &mut impl BufMut) {}

    fn merge_field(
        &mut self,
        tag: u32,
        wire_type: WireType,
        buf: &mut impl Buf,
        ctx: DecodeContext,
    ) -> Result<(), DecodeError> {
        match tag {
            1 => prost::encoding::string::merge(wire_type, &mut self.executable_path, buf, ctx),
            2 => prost::encoding::string::merge_repeated(wire_type, &mut self.args, buf, ctx),
            3 => prost::encoding::string::merge(wire_type, &mut self.operating_system, buf, ctx),
            4 => prost::encoding::string::merge(wire_type, &mut self.cpu_architecture, buf, ctx),
            _ => skip_field(wire_type, tag, buf, ctx),
        }
    }

    fn encoded_len(&self) -> usize {
        0
    }

    fn clear(&mut self) {
        *self = Self::default();
    }
}

impl Message for WireTraceEnd {
    fn encode_raw(&self, _buf: &mut impl BufMut) {}

    fn merge_field(
        &mut self,
        tag: u32,
        wire_type: WireType,
        buf: &mut impl Buf,
        ctx: DecodeContext,
    ) -> Result<(), DecodeError> {
        match tag {
            1 => prost::encoding::int32::merge(wire_type, &mut self.exit_code, buf, ctx),
            _ => skip_field(wire_type, tag, buf, ctx),
        }
    }

    fn encoded_len(&self) -> usize {
        0
    }

    fn clear(&mut self) {
        *self = Self::default();
    }
}

impl Message for WireFunctionCall {
    fn encode_raw(&self, _buf: &mut impl BufMut) {}

    fn merge_field(
        &mut self,
        tag: u32,
        wire_type: WireType,
        buf: &mut impl Buf,
        ctx: DecodeContext,
    ) -> Result<(), DecodeError> {
        match tag {
            1 => prost::encoding::string::merge(wire_type, &mut self.symbol, buf, ctx),
            2 => prost::encoding::uint64::merge(wire_type, &mut self.address, buf, ctx),
            3 => merge_registers(wire_type, &mut self.argument_registers, buf, ctx),
            4 => prost::encoding::bytes::merge(wire_type, &mut self.stack_shallow_copy, buf, ctx),
            _ => skip_field(wire_type, tag, buf, ctx),
        }
    }

    fn encoded_len(&self) -> usize {
        0
    }

    fn clear(&mut self) {
        *self = Self::default();
    }
}

impl Message for WireFunctionReturn {
    fn encode_raw(&self, _buf: &mut impl BufMut) {}

    fn merge_field(
        &mut self,
        tag: u32,
        wire_type: WireType,
        buf: &mut impl Buf,
        ctx: DecodeContext,
    ) -> Result<(), DecodeError> {
        match tag {
            1 => prost::encoding::string::merge(wire_type, &mut self.symbol, buf, ctx),
            2 => prost::encoding::uint64::merge(wire_type, &mut self.address, buf, ctx),
            3 => merge_registers(wire_type, &mut self.return_registers, buf, ctx),
            _ => skip_field(wire_type, tag, buf, ctx),
        }
    }

    fn encoded_len(&self) -> usize {
        0
    }

    fn clear(&mut self) {
        *self = Self::default();
    }
}

impl Message for WireSignalDelivery {
    fn encode_raw(&self, _buf: &mut impl BufMut) {}

    fn merge_field(
        &mut self,
        tag: u32,
        wire_type: WireType,
        buf: &mut impl Buf,
        ctx: DecodeContext,
    ) -> Result<(), DecodeError> {
        match tag {
            1 => prost::encoding::int32::merge(wire_type, &mut self.number, buf, ctx),
            2 => prost::encoding::string::merge(wire_type, &mut self.name, buf, ctx),
            3 => merge_registers(wire_type, &mut self.registers, buf, ctx),
            _ => skip_field(wire_type, tag, buf, ctx),
        }
    }

    fn encoded_len(&self) -> usize {
        0
    }

    fn clear(&mut self) {
        *self = Self::default();
    }
}

impl Message for WireEvent {
    fn encode_raw(&self, _buf: &mut impl BufMut) {}

    fn merge_field(
        &mut self,
        tag: u32,
        wire_type: WireType,
        buf: &mut impl Buf,
        ctx: DecodeContext,
    ) -> Result<(), DecodeError> {
        match tag {
            1 => prost::encoding::uint64::merge(wire_type, &mut self.event_id, buf, ctx),
            2 => prost::encoding::int32::merge(wire_type, &mut self.thread_id, buf, ctx),
            3 => prost::encoding::message::merge(
                wire_type,
                self.timestamp.get_or_insert_with(Default::default),
                buf,
                ctx,
            ),
            10 => {
                if let Some(WirePayload::TraceStart(value)) = &mut self.payload {
                    prost::encoding::message::merge(wire_type, value, buf, ctx)
                } else {
                    let mut owned = WireTraceStart::default();
                    prost::encoding::message::merge(wire_type, &mut owned, buf, ctx)
                        .map(|_| self.payload = Some(WirePayload::TraceStart(owned)))
                }
            }
            11 => {
                if let Some(WirePayload::TraceEnd(value)) = &mut self.payload {
                    prost::encoding::message::merge(wire_type, value, buf, ctx)
                } else {
                    let mut owned = WireTraceEnd::default();
                    prost::encoding::message::merge(wire_type, &mut owned, buf, ctx)
                        .map(|_| self.payload = Some(WirePayload::TraceEnd(owned)))
                }
            }
            12 => {
                if let Some(WirePayload::FunctionCall(value)) = &mut self.payload {
                    prost::encoding::message::merge(wire_type, value, buf, ctx)
                } else {
                    let mut owned = WireFunctionCall::default();
                    prost::encoding::message::merge(wire_type, &mut owned, buf, ctx)
                        .map(|_| self.payload = Some(WirePayload::FunctionCall(owned)))
                }
            }
            13 => {
                if let Some(WirePayload::FunctionReturn(value)) = &mut self.payload {
                    prost::encoding::message::merge(wire_type, value, buf, ctx)
                } else {
                    let mut owned = WireFunctionReturn::default();
                    prost::encoding::message::merge(wire_type, &mut owned, buf, ctx)
                        .map(|_| self.payload = Some(WirePayload::FunctionReturn(owned)))
                }
            }
            14 => {
                if let Some(WirePayload::SignalDelivery(value)) = &mut self.payload {
                    prost::encoding::message::merge(wire_type, value, buf, ctx)
                } else {
                    let mut owned = WireSignalDelivery::default();
                    prost::encoding::message::merge(wire_type, &mut owned, buf, ctx)
                        .map(|_| self.payload = Some(WirePayload::SignalDelivery(owned)))
                }
            }
            _ => skip_field(wire_type, tag, buf, ctx),
        }
    }

    fn encoded_len(&self) -> usize {
        0
    }

    fn clear(&mut self) {
        *self = Self::default();
    }
}

fn as_map(registers: &[(String, u64)]) -> HashMap<String, u64> {
    registers.iter().cloned().collect()
}

/// The library's record in the shape of the outside decoder's.
fn as_wire(event: &Event) -> WireEvent {
    WireEvent {
        event_id: event.event_id,
        thread_id: event.thread_id,
        timestamp: event
            .timestamp
            .map(|ts| prost_types::Timestamp { seconds: ts.seconds, nanos: ts.nanos }),
        payload: event.payload.as_ref().map(|payload| match payload {
            Payload::TraceStart(m) => WirePayload::TraceStart(WireTraceStart {
                executable_path: m.executable_path.clone(),
                args: m.args.clone(),
                operating_system: m.operating_system.clone(),
                cpu_architecture: m.cpu_architecture.clone(),
            }),
            Payload::TraceEnd(m) => WirePayload::TraceEnd(WireTraceEnd { exit_code: m.exit_code }),
            Payload::FunctionCall(m) => WirePayload::FunctionCall(WireFunctionCall {
                symbol: m.symbol.clone(),
                address: m.address,
                argument_registers: as_map(&m.argument_registers),
                stack_shallow_copy: m.stack_shallow_copy.clone(),
            }),
            Payload::FunctionReturn(m) => WirePayload::FunctionReturn(WireFunctionReturn {
                symbol: m.symbol.clone(),
                address: m.address,
                return_registers: as_map(&m.return_registers),
            }),
            Payload::SignalDelivery(m) => WirePayload::SignalDelivery(WireSignalDelivery {
                number: m.number,
                name: m.name.clone(),
                registers: as_map(&m.registers),
            }),
        }),
    }
}

/// Holds the library's decoder against the outside one on one body.
fn same_on_body(body: &[u8]) -> bool {
    // as a record of the log, behind its length
    let mut record = Vec::new();
    encode_varint(body.len() as u64, &mut record);
    record.extend_from_slice(body);
    let theirs = WireEvent::decode_length_delimited(record.as_slice());
    let ours = decode_record(body);
    match (&theirs, &ours) {
        (Ok(t), Ok(o)) => {
            assert_eq!(t, &as_wire(o), "body: {body:?}");
            true
        }
        (Err(_), Err(_)) => false,
        _ => panic!("body: {body:?}\n outside: {theirs:?}\n library: {ours:?}"),
    }
}

/// Holds the library's stream against the outside decoder on one log.
fn same_on_log(data: &[u8]) {
    let mut rest: &[u8] = data;
    let mut stream = EventStream::new(data.to_vec());
    loop {
        if rest.is_empty() {
            assert!(stream.next().is_none(), "log: {data:?}");
            assert!(stream.is_empty());
            return;
        }
        let theirs = WireEvent::decode_length_delimited(&mut rest);
        let ours = stream.next().expect("an item");
        match (theirs, ours) {
            (Ok(t), Ok(o)) => {
                let mut copy = t.clone();
                copy.timestamp = t.timestamp;
                let expect = ParsedEvent::from_proto(from_wire(&t));
                assert_eq!(o, expect, "log: {data:?}");
            }
            (Err(_), Err(e)) => {
                assert!(matches!(e, AtfError::Decode(_)));
                assert!(stream.next().is_none());
                assert!(stream.is_empty());
                return;
            }
            (t, o) => panic!("log: {data:?}\n outside: {t:?}\n library: {o:?}"),
        }
    }
}

fn registers_of(map: &HashMap<String, u64>) -> Vec<(String, u64)> {
    let mut list: Vec<_> = map.iter().map(|(k, v)| (k.clone(), *v)).collect();
    list.sort();
    list
}

fn from_wire(event: &WireEvent) -> Event {
    Event {
        event_id: event.event_id,
        thread_id: event.thread_id,
        timestamp: event
            .timestamp
            .as_ref()
            .map(|ts| Timestamp { seconds: ts.seconds, nanos: ts.nanos }),
        payload: event.payload.as_ref().map(|payload| match payload {
            WirePayload::TraceStart(m) => Payload::TraceStart(TraceStart {
                executable_path: m.executable_path.clone(),
                args: m.args.clone(),
                operating_system: m.operating_system.clone(),
                cpu_architecture: m.cpu_architecture.clone(),
            }),
            WirePayload::TraceEnd(m) => Payload::TraceEnd(TraceEnd { exit_code: m.exit_code }),
            WirePayload::FunctionCall(m) => Payload::FunctionCall(FunctionCall {
                symbol: m.symbol.clone(),
                address: m.address,
                argument_registers: registers_of(&m.argument_registers),
                stack_shallow_copy: m.stack_shallow_copy.clone(),
            }),
            WirePayload::FunctionReturn(m) => Payload::FunctionReturn(FunctionReturn {
                symbol: m.symbol.clone(),
                address: m.address,
                return_registers: registers_of(&m.return_registers),
            }),
            WirePayload::SignalDelivery(m) => Payload::SignalDelivery(SignalDelivery {
                number: m.number,
                name: m.name.clone(),
                registers: registers_of(&m.registers),
            }),
        }),
    }
}

/// A small generator of numbers, the same on every run.
struct Numbers(u64);

impl Numbers {
    fn next(&mut self) -> u64 {
        self.0 = self.0.wrapping_mul(6364136223846793005).wrapping_add(1442695040888963407);
        self.0 >> 24
    }

    fn below(&mut self, bound: usize) -> usize {
        (self.next() % bound as u64) as usize
    }
}

fn some_text(numbers: &mut Numbers) -> String {
    let choices = ["", "foo", "   ", "bär", "a::b<c>", "\u{1F600}x", "main", "\t\n"];
    choices[numbers.below(choices.len())].to_string()
}

fn some_registers(numbers: &mut Numbers) -> Vec<(String, u64)> {
    let names = ["x0", "x1", "sp", "pc", ""];
    let mut list: Vec<(String, u64)> = Vec::new();
    for _ in 0..numbers.below(4) {
        let name = names[numbers.below(names.len())].to_string();
        if list.iter().all(|(n, _)| *n != name) {
            list.push((name, numbers.next() << numbers.below(30)));
        }
    }
    list.sort();
    list
}

fn some_event(numbers: &mut Numbers) -> Event {
    let payload = match numbers.below(6) {
        0 => None,
        1 => Some(Payload::TraceStart(TraceStart {
            executable_path: some_text(numbers),
            args: (0..numbers.below(3)).map(|_| some_text(numbers)).collect(),
            operating_system: some_text(numbers),
            cpu_architecture: some_text(numbers),
        })),
        2 => Some(Payload::TraceEnd(TraceEnd { exit_code: numbers.next() as i32 })),
        3 => Some(Payload::FunctionCall(FunctionCall {
            symbol: some_text(numbers),
            address: numbers.next(),
            argument_registers: some_registers(numbers),
            stack_shallow_copy: (0..numbers.below(6)).map(|_| numbers.next() as u8).collect(),
        })),
        4 => Some(Payload::FunctionReturn(FunctionReturn {
            symbol: some_text(numbers),
            address: numbers.next(),
            return_registers: some_registers(numbers),
        })),
        _ => Some(Payload::SignalDelivery(SignalDelivery {
            number: numbers.next() as i32,
            name: some_text(numbers),
            registers: some_registers(numbers),
        })),
    };
    Event {
        event_id: numbers.next() >> numbers.below(40),
        thread_id: (numbers.next() as i32) >> numbers.below(31),
        timestamp: if numbers.below(4) == 0 {
            None
        } else {
            Some(Timestamp {
                seconds: (numbers.next() as i64) >> numbers.below(40),
                nanos: (numbers.next() as i32) >> numbers.below(20),
            })
        },
        payload,
    }
}

fn damaged(bytes: &[u8], numbers: &mut Numbers) -> Vec<u8> {
    let mut out = bytes.to_vec();
    for _ in 0..1 + numbers.below(3) {
        match numbers.below(5) {
            0 if !out.is_empty() => {
                let at = numbers.below(out.len());
                out[at] ^= 1 << numbers.below(8);
            }
            1 if !out.is_empty() => {
                let at = numbers.below(out.len());
                out[at] = numbers.next() as u8;
            }
            2 if !out.is_empty() => {
                out.truncate(numbers.below(out.len()));
            }
            3 => {
                let at = numbers.below(out.len() + 1);
                out.insert(at, numbers.next() as u8);
            }
            _ if !out.is_empty() => {
                let at = numbers.below(out.len());
                out.remove(at);
            }
            _ => {}
        }
    }
    out
}

#[test]
fn codec__sound_records__then_same_as_the_outside_decoder() {
    let mut numbers = Numbers(1);
    for _ in 0..3000 {
        let event = some_event(&mut numbers);
        let body = record_body(&event);
        assert!(same_on_body(&body));
        assert_eq!(decode_record(&body).expect("decode"), event);
    }
}

#[test]
fn codec__damaged_records__then_same_as_the_outside_decoder() {
    let mut numbers = Numbers(2);
    let mut accepted = 0;
    let mut refused = 0;
    for _ in 0..20_000 {
        let event = some_event(&mut numbers);
        let body = damaged(&record_body(&event), &mut numbers);
        if same_on_body(&body) {
            accepted += 1;
        } else {
            refused += 1;
        }
    }
    assert!(accepted > 1000, "accepted: {accepted}");
    assert!(refused > 1000, "refused: {refused}");
}

#[test]
fn codec__arbitrary_bytes__then_same_as_the_outside_decoder() {
    let mut numbers = Numbers(3);
    for _ in 0..20_000 {
        let len = numbers.below(24);
        let body: Vec<u8> = (0..len)
            .map(|_| {
                let b = numbers.next() as u8;
                if numbers.below(3) == 0 { b } else { b & 0x7F }
            })
            .collect();
        same_on_body(&body);
    }
}

#[test]
fn codec__groups__then_same_as_the_outside_decoder() {
    for levels in [1usize, 2, 50, 98, 99, 100, 101, 150] {
        for closing_tag in [50u32, 51] {
            let mut body = Vec::new();
            for _ in 0..levels {
                encode_key(50, WireType::StartGroup, &mut body);
            }
            prost::encoding::uint64::encode(7, &3, &mut body);
            for _ in 0..levels {
                encode_key(closing_tag, WireType::EndGroup, &mut body);
            }
            prost::encoding::uint64::encode(1, &11, &mut body);
            same_on_body(&body);
            // the same inside a payload message and inside a register entry
            let mut nested = Vec::new();
            put_nested(12, &body, &mut nested);
            same_on_body(&nested);
            let mut entry = Vec::new();
            put_nested(3, &body, &mut entry);
            let mut deeper = Vec::new();
            put_nested(12, &entry, &mut deeper);
            same_on_body(&deeper);
        }
    }
}

#[test]
fn stream__logs__then_same_as_the_outside_decoder() {
    let mut numbers = Numbers(4);
    for round in 0..3000 {
        let events: Vec<Event> = (0..numbers.below(5)).map(|_| some_event(&mut numbers)).collect();
        let mut data = log_of(&events);
        if round % 2 == 1 {
            data = damaged(&data, &mut numbers);
        }
        same_on_log(&data);
    }
    same_on_log(&[]);
    same_on_log(&[0x00]);
    same_on_log(&[0x00, 0x00, 0x02, 0x08]);
    same_on_log(&[0xFF, 0xFF]);
    same_on_log(&[0xAA]);
}

#[test]
fn codec__register_map_under_any_wire_type__then_read_as_an_entry() {
    let mut entry = Vec::new();
    prost::encoding::string::encode(1, &"x0".to_string(), &mut entry);
    prost::encoding::uint64::encode(2, &5, &mut entry);
    for wire in [
        WireType::Varint,
        WireType::SixtyFourBit,
        WireType::LengthDelimited,
        WireType::StartGroup,
        WireType::EndGroup,
        WireType::ThirtyTwoBit,
    ] {
        let mut call = Vec::new();
        encode_key(3, wire, &mut call);
        encode_varint(entry.len() as u64, &mut call);
        call.extend_from_slice(&entry);
        let mut body = Vec::new();
        put_nested(12, &call, &mut body);
        assert!(same_on_body(&body));
        match decode_record(&body).expect("decode").payload {
            Some(Payload::FunctionCall(m)) => {
                assert_eq!(m.argument_registers, vec![("x0".to_string(), 5)]);
            }
            other => panic!("unexpected payload: {other:?}"),
        }
    }
}

#[test]
fn encoding__records__then_the_bytes_of_the_outside_encoder() {
    let mut numbers = Numbers(5);
    for _ in 0..3000 {
        let event = some_event(&mut numbers);
        let body = encode_record(&event);
        assert_eq!(body, record_body(&event), "event: {event:?}");
        assert_eq!(decode_record(&body).expect("decode"), event);
    }
    let empty = Event { event_id: 0, thread_id: 0, timestamp: None, payload: None };
    assert_eq!(encode_record(&empty), Vec::<u8>::new());
    let zero_time = Event {
        timestamp: Some(Timestamp { seconds: 0, nanos: 0 }),
        payload: Some(Payload::TraceEnd(TraceEnd { exit_code: 0 })),
        ..empty
    };
    assert_eq!(encode_record(&zero_time), vec![0x1A, 0x00, 0x5A, 0x00]);
    assert_eq!(decode_record(&[0x1A, 0x00, 0x5A, 0x00]).expect("decode"), zero_time);
}

#[test]
fn encoding__logs__then_read_back() {
    let mut numbers = Numbers(6);
    for _ in 0..300 {
        let events: Vec<Event> = (0..numbers.below(6)).map(|_| some_event(&mut numbers)).collect();
        let data = encode_log(&events);
        assert_eq!(data, log_of(&events));
        let mut stream = EventStream::new(data);
        for event in &events {
            let got = stream.next().expect("item").expect("event");
            assert_eq!(got, ParsedEvent::from_proto(event.clone()));
        }
        assert!(stream.next().is_none());
    }
}

#[test]
fn encoding__varint__then_the_bytes_of_the_outside_encoder() {
    let mut numbers = Numbers(7);
    let mut values = vec![0u64, 1, 127, 128, 255, 16_383, 16_384, u64::MAX];
    for _ in 0..2000 {
        values.push(numbers.next() >> numbers.below(64));
    }
    for shift in 0..64 {
        values.push(1u64 << shift);
        values.push((1u64 << shift) - 1);
    }
    for value in values {
        let mut ours = vec![9u8];
        write_varint(&mut ours, value);
        let mut theirs = vec![9u8];
        encode_varint(value, &mut theirs);
        assert_eq!(ours, theirs, "value: {value}");
    }
}
