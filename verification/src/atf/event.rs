//! Domain events lifted from the records of the event log.

use crate::text::{is_blank, str_is_blank};
use vstd::prelude::*;

verus! {

/// A point in time as the log records it.
#[derive(Debug, Clone, Copy, PartialEq, Eq, Structural)]
pub struct Timestamp {
    pub seconds: i64,
    pub nanos: i32,
}

/// A register and the value it held, by the register's name.
pub type Register = (String, u64);

/// The models of a list of registers, in order.
pub open spec fn registers_view(registers: Seq<Register>) -> Seq<(Seq<char>, u64)> {
    registers.map_values(|r: Register| (r.0@, r.1))
}

/// The models of a list of strings, in order.
pub open spec fn texts_view(texts: Seq<String>) -> Seq<Seq<char>> {
    texts.map_values(|t: String| t@)
}

/// Payload of the record that opens a trace.
#[derive(Debug, Clone, PartialEq)]
pub struct TraceStart {
    pub executable_path: String,
    pub args: Vec<String>,
    pub operating_system: String,
    pub cpu_architecture: String,
}

/// Mathematical model of a [`TraceStart`].
pub struct TraceStartView {
    pub executable_path: Seq<char>,
    pub args: Seq<Seq<char>>,
    pub operating_system: Seq<char>,
    pub cpu_architecture: Seq<char>,
}

impl View for TraceStart {
    type V = TraceStartView;

    open spec fn view(&self) -> TraceStartView {
        TraceStartView {
            executable_path: self.executable_path@,
            args: texts_view(self.args@),
            operating_system: self.operating_system@,
            cpu_architecture: self.cpu_architecture@,
        }
    }
}

impl TraceStartView {
    /// The payload with every field empty.
    pub open spec fn empty() -> TraceStartView {
        TraceStartView {
            executable_path: Seq::empty(),
            args: Seq::empty(),
            operating_system: Seq::empty(),
            cpu_architecture: Seq::empty(),
        }
    }
}

impl Default for TraceStart {
    fn default() -> (m: Self)
        ensures
            m@ == TraceStartView::empty(),
    {
        let m = TraceStart {
            executable_path: String::new(),
            args: Vec::new(),
            operating_system: String::new(),
            cpu_architecture: String::new(),
        };
        assert(m@.args =~= Seq::<Seq<char>>::empty());
        m
    }
}

/// Payload of the record that closes a trace.
#[derive(Debug, Clone, Copy, PartialEq, Eq, Structural)]
pub struct TraceEnd {
    pub exit_code: i32,
}

impl Default for TraceEnd {
    fn default() -> (m: Self)
        ensures
            m == (TraceEnd { exit_code: 0 }),
    {
        TraceEnd { exit_code: 0 }
    }
}

/// Payload of a function call.
#[derive(Debug, Clone, PartialEq)]
pub struct FunctionCall {
    pub symbol: String,
    pub address: u64,
    pub argument_registers: Vec<Register>,
    pub stack_shallow_copy: Vec<u8>,
}

/// Mathematical model of a [`FunctionCall`].
pub struct FunctionCallView {
    pub symbol: Seq<char>,
    pub address: u64,
    pub argument_registers: Seq<(Seq<char>, u64)>,
    pub stack_shallow_copy: Seq<u8>,
}

impl View for FunctionCall {
    type V = FunctionCallView;

    open spec fn view(&self) -> FunctionCallView {
        FunctionCallView {
            symbol: self.symbol@,
            address: self.address,
            argument_registers: registers_view(self.argument_registers@),
            stack_shallow_copy: self.stack_shallow_copy@,
        }
    }
}

impl FunctionCallView {
    /// The payload with every field empty or zero.
    pub open spec fn empty() -> FunctionCallView {
        FunctionCallView {
            symbol: Seq::empty(),
            address: 0,
            argument_registers: Seq::empty(),
            stack_shallow_copy: Seq::empty(),
        }
    }
}

impl Default for FunctionCall {
    fn default() -> (m: Self)
        ensures
            m@ == FunctionCallView::empty(),
    {
        let m = FunctionCall {
            symbol: String::new(),
            address: 0,
            argument_registers: Vec::new(),
            stack_shallow_copy: Vec::new(),
        };
        assert(m@.argument_registers =~= Seq::<(Seq<char>, u64)>::empty());
        m
    }
}

/// Payload of a function return.
#[derive(Debug, Clone, PartialEq)]
pub struct FunctionReturn {
    pub symbol: String,
    pub address: u64,
    pub return_registers: Vec<Register>,
}

/// Mathematical model of a [`FunctionReturn`].
pub struct FunctionReturnView {
    pub symbol: Seq<char>,
    pub address: u64,
    pub return_registers: Seq<(Seq<char>, u64)>,
}

impl View for FunctionReturn {
    type V = FunctionReturnView;

    open spec fn view(&self) -> FunctionReturnView {
        FunctionReturnView {
            symbol: self.symbol@,
            address: self.address,
            return_registers: registers_view(self.return_registers@),
        }
    }
}

impl FunctionReturnView {
    /// The payload with every field empty or zero.
    pub open spec fn empty() -> FunctionReturnView {
        FunctionReturnView { symbol: Seq::empty(), address: 0, return_registers: Seq::empty() }
    }
}

impl Default for FunctionReturn {
    fn default() -> (m: Self)
        ensures
            m@ == FunctionReturnView::empty(),
    {
        let m = FunctionReturn { symbol: String::new(), address: 0, return_registers: Vec::new() };
        assert(m@.return_registers =~= Seq::<(Seq<char>, u64)>::empty());
        m
    }
}

/// Payload of the delivery of a signal.
#[derive(Debug, Clone, PartialEq)]
pub struct SignalDelivery {
    pub number: i32,
    pub name: String,
    pub registers: Vec<Register>,
}

/// Mathematical model of a [`SignalDelivery`].
pub struct SignalDeliveryView {
    pub number: i32,
    pub name: Seq<char>,
    pub registers: Seq<(Seq<char>, u64)>,
}

impl View for SignalDelivery {
    type V = SignalDeliveryView;

    open spec fn view(&self) -> SignalDeliveryView {
        SignalDeliveryView {
            number: self.number,
            name: self.name@,
            registers: registers_view(self.registers@),
        }
    }
}

impl SignalDeliveryView {
    /// The payload with every field empty or zero.
    pub open spec fn empty() -> SignalDeliveryView {
        SignalDeliveryView { number: 0, name: Seq::empty(), registers: Seq::empty() }
    }
}

impl Default for SignalDelivery {
    fn default() -> (m: Self)
        ensures
            m@ == SignalDeliveryView::empty(),
    {
        let m = SignalDelivery { number: 0, name: String::new(), registers: Vec::new() };
        assert(m@.registers =~= Seq::<(Seq<char>, u64)>::empty());
        m
    }
}

/// What a record of the log carries, by its kind.
#[derive(Debug, Clone, PartialEq)]
pub enum Payload {
    TraceStart(TraceStart),
    TraceEnd(TraceEnd),
    FunctionCall(FunctionCall),
    FunctionReturn(FunctionReturn),
    SignalDelivery(SignalDelivery),
}

/// Mathematical model of a [`Payload`].
pub enum PayloadView {
    TraceStart(TraceStartView),
    TraceEnd(TraceEnd),
    FunctionCall(FunctionCallView),
    FunctionReturn(FunctionReturnView),
    SignalDelivery(SignalDeliveryView),
}

impl View for Payload {
    type V = PayloadView;

    open spec fn view(&self) -> PayloadView {
        match *self {
            Payload::TraceStart(m) => PayloadView::TraceStart(m@),
            Payload::TraceEnd(m) => PayloadView::TraceEnd(m),
            Payload::FunctionCall(m) => PayloadView::FunctionCall(m@),
            Payload::FunctionReturn(m) => PayloadView::FunctionReturn(m@),
            Payload::SignalDelivery(m) => PayloadView::SignalDelivery(m@),
        }
    }
}

/// One record of the event log as it is written.
#[derive(Debug, Clone, PartialEq)]
pub struct Event {
    pub event_id: u64,
    pub thread_id: i32,
    pub timestamp: Option<Timestamp>,
    pub payload: Option<Payload>,
}

/// Mathematical model of an [`Event`].
pub struct RecordView {
    pub event_id: u64,
    pub thread_id: i32,
    pub timestamp: Option<Timestamp>,
    pub payload: Option<PayloadView>,
}

/// The model of an optional payload.
pub open spec fn payload_view(payload: Option<Payload>) -> Option<PayloadView> {
    match payload {
        Some(p) => Some(p@),
        None => None,
    }
}

impl View for Event {
    type V = RecordView;

    open spec fn view(&self) -> RecordView {
        RecordView {
            event_id: self.event_id,
            thread_id: self.thread_id,
            timestamp: self.timestamp,
            payload: payload_view(self.payload),
        }
    }
}

impl RecordView {
    /// The record with no field set.
    pub open spec fn empty() -> RecordView {
        RecordView { event_id: 0, thread_id: 0, timestamp: None, payload: None }
    }
}

impl Default for Event {
    fn default() -> (e: Self)
        ensures
            e@ == RecordView::empty(),
    {
        Event { event_id: 0, thread_id: 0, timestamp: None, payload: None }
    }
}

/// Nanoseconds in a second.
pub const NANOS_PER_SEC: u64 = 1_000_000_000;

/// The time in nanoseconds: negative seconds and negative nanoseconds count
/// as zero, and what does not fit 64 bits is the largest value they hold.
pub open spec fn timestamp_ns(ts: Timestamp) -> u64 {
    let seconds: int = if ts.seconds < 0 {
        0
    } else {
        ts.seconds as int
    };
    let nanos: int = if ts.nanos < 0 {
        0
    } else {
        ts.nanos as int
    };
    if seconds * NANOS_PER_SEC + nanos > u64::MAX {
        u64::MAX
    } else {
        (seconds * NANOS_PER_SEC + nanos) as u64
    }
}

/// Computes [`timestamp_ns`].
pub fn timestamp_to_ns(ts: Timestamp) -> (ns: u64)
    ensures
        ns == timestamp_ns(ts),
{
    let seconds: u128 = if ts.seconds < 0 {
        0
    } else {
        ts.seconds as u128
    };
    let nanos: u128 = if ts.nanos < 0 {
        0
    } else {
        ts.nanos as u128
    };
    assert(seconds * 1_000_000_000 <= 0x7fff_ffff_ffff_ffff * 1_000_000_000) by (nonlinear_arith)
        requires
            seconds <= 0x7fff_ffff_ffff_ffff,
    ;
    let total: u128 = seconds * 1_000_000_000 + nanos;
    if total > u64::MAX as u128 {
        u64::MAX
    } else {
        total as u64
    }
}

/// A name, unless it is empty or nothing but white space.
pub open spec fn non_blank(text: Seq<char>) -> Option<Seq<char>> {
    if is_blank(text) {
        None
    } else {
        Some(text)
    }
}

/// Keeps a name unless it is empty or nothing but white space.
pub fn some_non_empty(value: String) -> (kept: Option<String>)
    ensures
        text_of(kept) == non_blank(value@),
{
    if str_is_blank(value.as_str()) {
        None
    } else {
        Some(value)
    }
}

/// What an event records.
#[derive(Debug, Clone, PartialEq)]
pub enum ParsedEventKind {
    TraceStart,
    TraceEnd,
    FunctionCall { symbol: Option<String> },
    FunctionReturn { symbol: Option<String> },
    SignalDelivery { name: Option<String> },
    Unknown,
}

/// Mathematical model of a [`ParsedEventKind`]: names are character sequences.
pub enum KindView {
    TraceStart,
    TraceEnd,
    FunctionCall { symbol: Option<Seq<char>> },
    FunctionReturn { symbol: Option<Seq<char>> },
    SignalDelivery { name: Option<Seq<char>> },
    Unknown,
}

/// The characters of an optional string.
pub open spec fn text_of(s: Option<String>) -> Option<Seq<char>> {
    match s {
        Some(t) => Some(t@),
        None => None,
    }
}

impl KindView {
    /// The tag name under which the kind is reported.
    pub open spec fn label(self) -> Seq<char> {
        match self {
            KindView::TraceStart => "TraceStart"@,
            KindView::TraceEnd => "TraceEnd"@,
            KindView::FunctionCall { .. } => "FunctionCall"@,
            KindView::FunctionReturn { .. } => "FunctionReturn"@,
            KindView::SignalDelivery { .. } => "SignalDelivery"@,
            KindView::Unknown => "Unknown"@,
        }
    }

    /// The function symbol of a call or a return; no other kind has one.
    pub open spec fn function_symbol(self) -> Option<Seq<char>> {
        match self {
            KindView::FunctionCall { symbol } => symbol,
            KindView::FunctionReturn { symbol } => symbol,
            _ => None,
        }
    }
}

impl View for ParsedEventKind {
    type V = KindView;

    open spec fn view(&self) -> KindView {
        match *self {
            ParsedEventKind::TraceStart => KindView::TraceStart,
            ParsedEventKind::TraceEnd => KindView::TraceEnd,
            ParsedEventKind::FunctionCall { symbol } => KindView::FunctionCall {
                symbol: text_of(symbol),
            },
            ParsedEventKind::FunctionReturn { symbol } => KindView::FunctionReturn {
                symbol: text_of(symbol),
            },
            ParsedEventKind::SignalDelivery { name } => KindView::SignalDelivery {
                name: text_of(name),
            },
            ParsedEventKind::Unknown => KindView::Unknown,
        }
    }
}

impl ParsedEventKind {
    /// The tag name of the kind.
    pub fn as_str(&self) -> (label: &'static str)
        ensures
            label@ == self@.label(),
    {
        match self {
            ParsedEventKind::TraceStart => "TraceStart",
            ParsedEventKind::TraceEnd => "TraceEnd",
            ParsedEventKind::FunctionCall { .. } => "FunctionCall",
            ParsedEventKind::FunctionReturn { .. } => "FunctionReturn",
            ParsedEventKind::SignalDelivery { .. } => "SignalDelivery",
            ParsedEventKind::Unknown => "Unknown",
        }
    }

    /// The function symbol carried by a call or a return.
    pub fn function_symbol(&self) -> (symbol: Option<&str>)
        ensures
            symbol is Some == self@.function_symbol() is Some,
            symbol matches Some(s) ==> Some(s@) == self@.function_symbol(),
    {
        match self {
            ParsedEventKind::FunctionCall { symbol } => match symbol {
                Some(s) => Some(s.as_str()),
                None => None,
            },
            ParsedEventKind::FunctionReturn { symbol } => match symbol {
                Some(s) => Some(s.as_str()),
                None => None,
            },
            _ => None,
        }
    }
}

/// One event of the log after normalisation.
#[derive(Debug, Clone, PartialEq)]
pub struct ParsedEvent {
    pub timestamp_ns: u64,
    pub thread_id: u32,
    pub kind: ParsedEventKind,
}

/// Mathematical model of a [`ParsedEvent`].
pub struct EventView {
    pub timestamp_ns: u64,
    pub thread_id: u32,
    pub kind: KindView,
}

impl View for ParsedEvent {
    type V = EventView;

    open spec fn view(&self) -> EventView {
        EventView { timestamp_ns: self.timestamp_ns, thread_id: self.thread_id, kind: self.kind@ }
    }
}

impl RecordView {
    /// The time of the record in nanoseconds; zero where it has no time.
    pub open spec fn time(self) -> u64 {
        match self.timestamp {
            Some(ts) => timestamp_ns(ts),
            None => 0,
        }
    }

    /// The thread of the record; zero where it is recorded as negative.
    pub open spec fn thread(self) -> u32 {
        if self.thread_id < 0 {
            0
        } else {
            self.thread_id as u32
        }
    }

    /// The kind of the record. A record without payload is of unknown kind;
    /// a name that is blank counts as absent.
    pub open spec fn kind(self) -> KindView {
        match self.payload {
            Some(PayloadView::TraceStart(_)) => KindView::TraceStart,
            Some(PayloadView::TraceEnd(_)) => KindView::TraceEnd,
            Some(PayloadView::FunctionCall(call)) => KindView::FunctionCall {
                symbol: non_blank(call.symbol),
            },
            Some(PayloadView::FunctionReturn(ret)) => KindView::FunctionReturn {
                symbol: non_blank(ret.symbol),
            },
            Some(PayloadView::SignalDelivery(signal)) => KindView::SignalDelivery {
                name: non_blank(signal.name),
            },
            None => KindView::Unknown,
        }
    }

    /// The event that the record stands for.
    pub open spec fn parsed(self) -> EventView {
        EventView { timestamp_ns: self.time(), thread_id: self.thread(), kind: self.kind() }
    }
}

impl ParsedEvent {
    /// Lifts a record of the log into an event. A negative thread id becomes
    /// zero; negative seconds or nanoseconds count as zero and a time beyond
    /// 64 bits is held at their largest value; a symbol or a signal name that
    /// is empty or blank becomes `None`.
    pub fn from_proto(event: Event) -> (parsed: Self)
        ensures
            parsed@ == event@.parsed(),
            event.thread_id < 0 ==> parsed.thread_id == 0,
            event.thread_id >= 0 ==> parsed.thread_id == event.thread_id,
            event.timestamp is None ==> parsed.timestamp_ns == 0,
            event.timestamp matches Some(ts) ==> (ts.seconds <= 0 && ts.nanos <= 0
                ==> parsed.timestamp_ns == 0),
            event.payload is None <==> parsed.kind is Unknown,
    {
        let timestamp_ns = match event.timestamp {
            Some(ts) => timestamp_to_ns(ts),
            None => 0,
        };
        let thread_id: u32 = if event.thread_id < 0 {
            0
        } else {
            event.thread_id as u32
        };
        let kind = match event.payload {
            Some(Payload::TraceStart(_)) => ParsedEventKind::TraceStart,
            Some(Payload::TraceEnd(_)) => ParsedEventKind::TraceEnd,
            Some(Payload::FunctionCall(call)) => ParsedEventKind::FunctionCall {
                symbol: some_non_empty(call.symbol),
            },
            Some(Payload::FunctionReturn(ret)) => ParsedEventKind::FunctionReturn {
                symbol: some_non_empty(ret.symbol),
            },
            Some(Payload::SignalDelivery(signal)) => ParsedEventKind::SignalDelivery {
                name: some_non_empty(signal.name),
            },
            None => ParsedEventKind::Unknown,
        };
        ParsedEvent { timestamp_ns, thread_id, kind }
    }

    /// The function symbol of the event, if its kind has one.
    pub fn function_name(&self) -> (symbol: Option<&str>)
        ensures
            symbol is Some == self@.kind.function_symbol() is Some,
            symbol matches Some(s) ==> Some(s@) == self@.kind.function_symbol(),
    {
        self.kind.function_symbol()
    }
}

/// The models of a sequence of events, in order.
pub open spec fn events_view(events: Seq<ParsedEvent>) -> Seq<EventView> {
    events.map_values(|e: ParsedEvent| e@)
}

} // verus!
