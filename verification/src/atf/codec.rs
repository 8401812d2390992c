//! The records of the event log: which fields each message has, and how a
//! message body is merged into a value field by field.

use crate::atf::error::DecodeFault;
use crate::atf::event::{
    Event, FunctionCall, FunctionCallView, FunctionReturn, FunctionReturnView, Payload,
    PayloadView, RecordView, Register, SignalDelivery, SignalDeliveryView, Timestamp, TraceEnd,
    TraceStart, TraceStartView,
};
use crate::atf::wire::{
    key_at, read_key, read_value, value_at, Field, FieldKey, FieldView, RECURSION_LIMIT,
    WIRE_LENGTH_DELIMITED, WIRE_VARINT,
};
use vstd::prelude::*;
use vstd::slice::*;
use vstd::utf8::{decode_utf8, valid_utf8};

verus! {

/// The number of a field that has to be a variable-length integer.
pub open spec fn as_varint(field: FieldView) -> Result<u64, DecodeFault> {
    if field.key.wire == WIRE_VARINT {
        Ok(field.value)
    } else {
        Err(DecodeFault::UnexpectedWireType)
    }
}

/// The bytes of a field that has to be length-delimited.
pub open spec fn as_bytes(field: FieldView) -> Result<Seq<u8>, DecodeFault> {
    if field.key.wire == WIRE_LENGTH_DELIMITED {
        Ok(field.payload)
    } else {
        Err(DecodeFault::UnexpectedWireType)
    }
}

/// The text of a field that has to be a length-delimited UTF-8 string.
pub open spec fn as_text(field: FieldView) -> Result<Seq<char>, DecodeFault> {
    match as_bytes(field) {
        Err(fault) => Err(fault),
        Ok(bytes) => if valid_utf8(bytes) {
            Ok(decode_utf8(bytes))
        } else {
            Err(DecodeFault::InvalidString)
        },
    }
}

/// Decides [`as_varint`].
pub fn field_varint(field: &Field) -> (r: Result<u64, DecodeFault>)
    ensures
        forall|s: Seq<u8>| r == as_varint(#[trigger] field.view_in(s)),
{
    if field.key.wire == WIRE_VARINT {
        Ok(field.value)
    } else {
        Err(DecodeFault::UnexpectedWireType)
    }
}

/// Decides [`as_bytes`]: the payload of the field as a slice of the body.
pub fn field_bytes<'a>(body: &'a [u8], field: &Field) -> (r: Result<&'a [u8], DecodeFault>)
    requires
        field.lies_in(body@),
    ensures
        match r {
            Ok(bytes) => as_bytes(field.view_in(body@)) == Ok::<_, DecodeFault>(bytes@),
            Err(fault) => as_bytes(field.view_in(body@)) == Err::<Seq<u8>, _>(fault),
        },
{
    if field.key.wire == WIRE_LENGTH_DELIMITED {
        Ok(slice_subrange(body, field.start, field.end))
    } else {
        Err(DecodeFault::UnexpectedWireType)
    }
}

/// `String::from_utf8` of the standard library: the string whose UTF-8
/// encoding the bytes are, or nothing where they are no UTF-8. Trusted, not
/// proved.
#[verifier::external_body]
fn string_from_utf8(bytes: Vec<u8>) -> (r: Option<String>)
    ensures
        r is Some <==> valid_utf8(bytes@),
        r matches Some(text) ==> text@ == decode_utf8(bytes@),
{
    String::from_utf8(bytes).ok()
}

/// Decides [`as_text`].
pub fn field_text(body: &[u8], field: &Field) -> (r: Result<String, DecodeFault>)
    requires
        field.lies_in(body@),
    ensures
        match r {
            Ok(text) => as_text(field.view_in(body@)) == Ok::<_, DecodeFault>(text@),
            Err(fault) => as_text(field.view_in(body@)) == Err::<Seq<char>, _>(fault),
        },
{
    let bytes = match field_bytes(body, field) {
        Ok(bytes) => bytes,
        Err(fault) => {
            return Err(fault);
        },
    };
    match string_from_utf8(slice_to_vec(bytes)) {
        Some(text) => Ok(text),
        None => Err(DecodeFault::InvalidString),
    }
}

/// A message of the log: a value into which the fields of a body are merged
/// one by one.
pub trait WireMessage: Sized {
    /// The mathematical model of the message.
    type Model;

    /// The model of this value.
    spec fn model(&self) -> Self::Model;

    /// The wire type as which the value of a field is read: the one that
    /// its key names, but for a map of registers, whose entries are read as
    /// length-delimited whatever their keys name.
    spec fn read_as(key: FieldKey) -> u8;

    /// Decides [`Self::read_as`].
    fn wire_of(key: &FieldKey) -> (wire: u8)
        requires
            key.wire <= 5,
        ensures
            wire == Self::read_as(*key),
            wire <= 5,
    ;

    /// The message after one more field. A field that the message does not
    /// know is passed over; a field that it knows has to come with its wire
    /// type. The fields of the body are read with `depth` levels of nesting
    /// left.
    spec fn put(acc: Self::Model, field: FieldView, depth: nat) -> Result<
        Self::Model,
        DecodeFault,
    >;

    /// Merges one field of `body` into the message.
    fn merge_field(self, body: &[u8], field: &Field, depth: u32) -> (r: Result<Self, DecodeFault>)
        requires
            field.lies_in(body@),
            depth >= 1,
        ensures
            match r {
                Ok(m) => Self::put(self.model(), field.view_in(body@), depth as nat) == Ok::<
                    _,
                    DecodeFault,
                >(m.model()),
                Err(fault) => Self::put(self.model(), field.view_in(body@), depth as nat) == Err::<
                    Self::Model,
                    _,
                >(fault),
            },
    ;
}

/// The field of a message of type `M` that begins at `pos`: its key, then
/// its value, read as the message reads the values of that key.
pub open spec fn field_of<M: WireMessage>(s: Seq<u8>, pos: int, depth: nat) -> Result<
    FieldView,
    DecodeFault,
> {
    match key_at(s, pos) {
        Err(fault) => Err(fault),
        Ok((key, behind)) => value_at(
            s,
            behind,
            FieldKey { tag: key.tag, wire: M::read_as(key) },
            depth,
        ),
    }
}

/// The message `acc` after the fields of the body `s` from `pos` on. The
/// first fault ends it.
pub open spec fn merged<M: WireMessage>(s: Seq<u8>, pos: int, acc: M::Model, depth: nat) -> Result<
    M::Model,
    DecodeFault,
>
    decreases s.len() - pos,
{
    if pos < 0 || pos >= s.len() {
        Ok(acc)
    } else {
        match field_of::<M>(s, pos, depth) {
            Err(fault) => Err(fault),
            Ok(field) => if !(pos < field.next <= s.len()) {
                Err(DecodeFault::BufferUnderflow)
            } else {
                match M::put(acc, field, depth) {
                    Err(fault) => Err(fault),
                    Ok(better) => merged::<M>(s, field.next, better, depth),
                }
            },
        }
    }
}

/// Merges the fields of `body` into `start`.
pub fn merge_message<M: WireMessage>(body: &[u8], start: M, depth: u32) -> (r: Result<
    M,
    DecodeFault,
>)
    ensures
        match r {
            Ok(m) => merged::<M>(body@, 0, start.model(), depth as nat) == Ok::<_, DecodeFault>(
                m.model(),
            ),
            Err(fault) => merged::<M>(body@, 0, start.model(), depth as nat) == Err::<
                M::Model,
                _,
            >(fault),
        },
{
    let ghost first = start.model();
    let mut acc = start;
    let mut pos: usize = 0;
    while pos < body.len()
        invariant
            pos <= body@.len(),
            first == start.model(),
            merged::<M>(body@, 0, first, depth as nat) == merged::<M>(
                body@,
                pos as int,
                acc.model(),
                depth as nat,
            ),
        decreases body@.len() - pos,
    {
        let (key, behind) = match read_key(body, pos) {
            Ok(read) => read,
            Err(fault) => {
                return Err(fault);
            },
        };
        let read_as = FieldKey { tag: key.tag, wire: M::wire_of(&key) };
        let field = match read_value(body, behind, read_as, depth) {
            Ok(field) => field,
            Err(fault) => {
                return Err(fault);
            },
        };
        acc = match acc.merge_field(body, &field, depth) {
            Ok(better) => better,
            Err(fault) => {
                return Err(fault);
            },
        };
        pos = field.next;
    }
    Ok(acc)
}

impl WireMessage for Timestamp {
    type Model = Timestamp;

    open spec fn model(&self) -> Timestamp {
        *self
    }

    open spec fn read_as(key: FieldKey) -> u8 {
        key.wire
    }

    fn wire_of(key: &FieldKey) -> (wire: u8) {
        key.wire
    }

    open spec fn put(acc: Timestamp, field: FieldView, depth: nat) -> Result<
        Timestamp,
        DecodeFault,
    > {
        if field.key.tag == 1 {
            match as_varint(field) {
                Err(fault) => Err(fault),
                Ok(v) => Ok(Timestamp { seconds: v as i64, ..acc }),
            }
        } else if field.key.tag == 2 {
            match as_varint(field) {
                Err(fault) => Err(fault),
                Ok(v) => Ok(Timestamp { nanos: v as i32, ..acc }),
            }
        } else {
            Ok(acc)
        }
    }

    fn merge_field(self, body: &[u8], field: &Field, depth: u32) -> (r: Result<
        Self,
        DecodeFault,
    >) {
        let mut m = self;
        if field.key.tag == 1 {
            let v = field_varint(field)?;
            m.seconds = #[verifier::truncate]
            (v as i64);
        } else if field.key.tag == 2 {
            let v = field_varint(field)?;
            m.nanos = #[verifier::truncate]
            (v as i32);
        }
        Ok(m)
    }
}

/// One entry of a register map while it is read.
pub struct RegisterEntry {
    pub name: String,
    pub value: u64,
}

impl WireMessage for RegisterEntry {
    type Model = (Seq<char>, u64);

    open spec fn model(&self) -> (Seq<char>, u64) {
        (self.name@, self.value)
    }

    open spec fn read_as(key: FieldKey) -> u8 {
        key.wire
    }

    fn wire_of(key: &FieldKey) -> (wire: u8) {
        key.wire
    }

    open spec fn put(acc: (Seq<char>, u64), field: FieldView, depth: nat) -> Result<
        (Seq<char>, u64),
        DecodeFault,
    > {
        if field.key.tag == 1 {
            match as_text(field) {
                Err(fault) => Err(fault),
                Ok(name) => Ok((name, acc.1)),
            }
        } else if field.key.tag == 2 {
            match as_varint(field) {
                Err(fault) => Err(fault),
                Ok(v) => Ok((acc.0, v)),
            }
        } else {
            Ok(acc)
        }
    }

    fn merge_field(self, body: &[u8], field: &Field, depth: u32) -> (r: Result<
        Self,
        DecodeFault,
    >) {
        let mut m = self;
        if field.key.tag == 1 {
            m.name = field_text(body, field)?;
        } else if field.key.tag == 2 {
            m.value = field_varint(field)?;
        }
        Ok(m)
    }
}

/// The register that a map entry field holds: the entry is a message of a
/// name and a value, one level deeper.
pub open spec fn as_register(field: FieldView, depth: nat) -> Result<(Seq<char>, u64), DecodeFault> {
    match as_bytes(field) {
        Err(fault) => Err(fault),
        Ok(bytes) => merged::<RegisterEntry>(bytes, 0, (Seq::empty(), 0), (depth - 1) as nat),
    }
}

/// Decides [`as_register`].
pub fn field_register(body: &[u8], field: &Field, depth: u32) -> (r: Result<Register, DecodeFault>)
    requires
        field.lies_in(body@),
        depth >= 1,
    ensures
        match r {
            Ok(register) => as_register(field.view_in(body@), depth as nat) == Ok::<
                _,
                DecodeFault,
            >((register.0@, register.1)),
            Err(fault) => as_register(field.view_in(body@), depth as nat) == Err::<
                (Seq<char>, u64),
                _,
            >(fault),
        },
{
    let bytes = field_bytes(body, field)?;
    let entry = merge_message(bytes, RegisterEntry { name: String::new(), value: 0 }, depth - 1)?;
    Ok((entry.name, entry.value))
}

impl WireMessage for TraceStart {
    type Model = TraceStartView;

    open spec fn model(&self) -> TraceStartView {
        self@
    }

    open spec fn read_as(key: FieldKey) -> u8 {
        key.wire
    }

    fn wire_of(key: &FieldKey) -> (wire: u8) {
        key.wire
    }

    open spec fn put(acc: TraceStartView, field: FieldView, depth: nat) -> Result<
        TraceStartView,
        DecodeFault,
    > {
        if 1 <= field.key.tag <= 4 {
            match as_text(field) {
                Err(fault) => Err(fault),
                Ok(text) => if field.key.tag == 1 {
                    Ok(TraceStartView { executable_path: text, ..acc })
                } else if field.key.tag == 2 {
                    Ok(TraceStartView { args: acc.args.push(text), ..acc })
                } else if field.key.tag == 3 {
                    Ok(TraceStartView { operating_system: text, ..acc })
                } else {
                    Ok(TraceStartView { cpu_architecture: text, ..acc })
                },
            }
        } else {
            Ok(acc)
        }
    }

    fn merge_field(self, body: &[u8], field: &Field, depth: u32) -> (r: Result<
        Self,
        DecodeFault,
    >) {
        let mut m = self;
        if 1 <= field.key.tag && field.key.tag <= 4 {
            let text = field_text(body, field)?;
            if field.key.tag == 1 {
                m.executable_path = text;
            } else if field.key.tag == 2 {
                let ghost before = m.args@;
                m.args.push(text);
                assert(crate::atf::event::texts_view(m.args@) =~= crate::atf::event::texts_view(
                    before,
                ).push(text@));
            } else if field.key.tag == 3 {
                m.operating_system = text;
            } else {
                m.cpu_architecture = text;
            }
        }
        Ok(m)
    }
}

impl WireMessage for TraceEnd {
    type Model = TraceEnd;

    open spec fn model(&self) -> TraceEnd {
        *self
    }

    open spec fn read_as(key: FieldKey) -> u8 {
        key.wire
    }

    fn wire_of(key: &FieldKey) -> (wire: u8) {
        key.wire
    }

    open spec fn put(acc: TraceEnd, field: FieldView, depth: nat) -> Result<TraceEnd, DecodeFault> {
        if field.key.tag == 1 {
            match as_varint(field) {
                Err(fault) => Err(fault),
                Ok(v) => Ok(TraceEnd { exit_code: v as i32 }),
            }
        } else {
            Ok(acc)
        }
    }

    fn merge_field(self, body: &[u8], field: &Field, depth: u32) -> (r: Result<
        Self,
        DecodeFault,
    >) {
        let mut m = self;
        if field.key.tag == 1 {
            let v = field_varint(field)?;
            m.exit_code = #[verifier::truncate]
            (v as i32);
        }
        Ok(m)
    }
}

impl WireMessage for FunctionCall {
    type Model = FunctionCallView;

    open spec fn model(&self) -> FunctionCallView {
        self@
    }

    open spec fn read_as(key: FieldKey) -> u8 {
        if key.tag == 3 {
            WIRE_LENGTH_DELIMITED
        } else {
            key.wire
        }
    }

    fn wire_of(key: &FieldKey) -> (wire: u8) {
        if key.tag == 3 {
            WIRE_LENGTH_DELIMITED
        } else {
            key.wire
        }
    }

    open spec fn put(acc: FunctionCallView, field: FieldView, depth: nat) -> Result<
        FunctionCallView,
        DecodeFault,
    > {
        if field.key.tag == 1 {
            match as_text(field) {
                Err(fault) => Err(fault),
                Ok(text) => Ok(FunctionCallView { symbol: text, ..acc }),
            }
        } else if field.key.tag == 2 {
            match as_varint(field) {
                Err(fault) => Err(fault),
                Ok(v) => Ok(FunctionCallView { address: v, ..acc }),
            }
        } else if field.key.tag == 3 {
            match as_register(field, depth) {
                Err(fault) => Err(fault),
                Ok(register) => Ok(
                    FunctionCallView {
                        argument_registers: acc.argument_registers.push(register),
                        ..acc
                    },
                ),
            }
        } else if field.key.tag == 4 {
            match as_bytes(field) {
                Err(fault) => Err(fault),
                Ok(bytes) => Ok(FunctionCallView { stack_shallow_copy: bytes, ..acc }),
            }
        } else {
            Ok(acc)
        }
    }

    fn merge_field(self, body: &[u8], field: &Field, depth: u32) -> (r: Result<
        Self,
        DecodeFault,
    >) {
        let mut m = self;
        if field.key.tag == 1 {
            m.symbol = field_text(body, field)?;
        } else if field.key.tag == 2 {
            m.address = field_varint(field)?;
        } else if field.key.tag == 3 {
            let register = field_register(body, field, depth)?;
            let ghost before = m.argument_registers@;
            m.argument_registers.push(register);
            assert(crate::atf::event::registers_view(m.argument_registers@)
                =~= crate::atf::event::registers_view(before).push((register.0@, register.1)));
        } else if field.key.tag == 4 {
            let bytes = field_bytes(body, field)?;
            m.stack_shallow_copy = slice_to_vec(bytes);
        }
        Ok(m)
    }
}

impl WireMessage for FunctionReturn {
    type Model = FunctionReturnView;

    open spec fn model(&self) -> FunctionReturnView {
        self@
    }

    open spec fn read_as(key: FieldKey) -> u8 {
        if key.tag == 3 {
            WIRE_LENGTH_DELIMITED
        } else {
            key.wire
        }
    }

    fn wire_of(key: &FieldKey) -> (wire: u8) {
        if key.tag == 3 {
            WIRE_LENGTH_DELIMITED
        } else {
            key.wire
        }
    }

    open spec fn put(acc: FunctionReturnView, field: FieldView, depth: nat) -> Result<
        FunctionReturnView,
        DecodeFault,
    > {
        if field.key.tag == 1 {
            match as_text(field) {
                Err(fault) => Err(fault),
                Ok(text) => Ok(FunctionReturnView { symbol: text, ..acc }),
            }
        } else if field.key.tag == 2 {
            match as_varint(field) {
                Err(fault) => Err(fault),
                Ok(v) => Ok(FunctionReturnView { address: v, ..acc }),
            }
        } else if field.key.tag == 3 {
            match as_register(field, depth) {
                Err(fault) => Err(fault),
                Ok(register) => Ok(
                    FunctionReturnView {
                        return_registers: acc.return_registers.push(register),
                        ..acc
                    },
                ),
            }
        } else {
            Ok(acc)
        }
    }

    fn merge_field(self, body: &[u8], field: &Field, depth: u32) -> (r: Result<
        Self,
        DecodeFault,
    >) {
        let mut m = self;
        if field.key.tag == 1 {
            m.symbol = field_text(body, field)?;
        } else if field.key.tag == 2 {
            m.address = field_varint(field)?;
        } else if field.key.tag == 3 {
            let register = field_register(body, field, depth)?;
            let ghost before = m.return_registers@;
            m.return_registers.push(register);
            assert(crate::atf::event::registers_view(m.return_registers@)
                =~= crate::atf::event::registers_view(before).push((register.0@, register.1)));
        }
        Ok(m)
    }
}

impl WireMessage for SignalDelivery {
    type Model = SignalDeliveryView;

    open spec fn model(&self) -> SignalDeliveryView {
        self@
    }

    open spec fn read_as(key: FieldKey) -> u8 {
        if key.tag == 3 {
            WIRE_LENGTH_DELIMITED
        } else {
            key.wire
        }
    }

    fn wire_of(key: &FieldKey) -> (wire: u8) {
        if key.tag == 3 {
            WIRE_LENGTH_DELIMITED
        } else {
            key.wire
        }
    }

    open spec fn put(acc: SignalDeliveryView, field: FieldView, depth: nat) -> Result<
        SignalDeliveryView,
        DecodeFault,
    > {
        if field.key.tag == 1 {
            match as_varint(field) {
                Err(fault) => Err(fault),
                Ok(v) => Ok(SignalDeliveryView { number: v as i32, ..acc }),
            }
        } else if field.key.tag == 2 {
            match as_text(field) {
                Err(fault) => Err(fault),
                Ok(text) => Ok(SignalDeliveryView { name: text, ..acc }),
            }
        } else if field.key.tag == 3 {
            match as_register(field, depth) {
                Err(fault) => Err(fault),
                Ok(register) => Ok(
                    SignalDeliveryView { registers: acc.registers.push(register), ..acc },
                ),
            }
        } else {
            Ok(acc)
        }
    }

    fn merge_field(self, body: &[u8], field: &Field, depth: u32) -> (r: Result<
        Self,
        DecodeFault,
    >) {
        let mut m = self;
        if field.key.tag == 1 {
            let v = field_varint(field)?;
            m.number = #[verifier::truncate]
            (v as i32);
        } else if field.key.tag == 2 {
            m.name = field_text(body, field)?;
        } else if field.key.tag == 3 {
            let register = field_register(body, field, depth)?;
            let ghost before = m.registers@;
            m.registers.push(register);
            assert(crate::atf::event::registers_view(m.registers@)
                =~= crate::atf::event::registers_view(before).push((register.0@, register.1)));
        }
        Ok(m)
    }
}

/// The message of type `M` that a nested field holds, merged into `start`:
/// the field is length-delimited and its bytes are the body of the message,
/// one level deeper.
pub open spec fn as_message<M: WireMessage>(field: FieldView, start: M::Model, depth: nat)
    -> Result<M::Model, DecodeFault> {
    match as_bytes(field) {
        Err(fault) => Err(fault),
        Ok(bytes) => merged::<M>(bytes, 0, start, (depth - 1) as nat),
    }
}

/// Decides [`as_message`].
pub fn field_message<M: WireMessage>(body: &[u8], field: &Field, start: M, depth: u32) -> (r:
    Result<M, DecodeFault>)
    requires
        field.lies_in(body@),
        depth >= 1,
    ensures
        match r {
            Ok(m) => as_message::<M>(field.view_in(body@), start.model(), depth as nat) == Ok::<
                _,
                DecodeFault,
            >(m.model()),
            Err(fault) => as_message::<M>(field.view_in(body@), start.model(), depth as nat)
                == Err::<M::Model, _>(fault),
        },
{
    let bytes = field_bytes(body, field)?;
    merge_message(bytes, start, depth - 1)
}

/// The time into which a time field is merged: the one the record has, or
/// zero.
pub open spec fn time_so_far(timestamp: Option<Timestamp>) -> Timestamp {
    match timestamp {
        Some(ts) => ts,
        None => Timestamp { seconds: 0, nanos: 0 },
    }
}

/// The trace start into which a field of that kind is merged: the one the
/// record has, or an empty one where its payload is of another kind.
pub open spec fn trace_start_so_far(payload: Option<PayloadView>) -> TraceStartView {
    match payload {
        Some(PayloadView::TraceStart(m)) => m,
        _ => TraceStartView::empty(),
    }
}

/// The trace end into which a field of that kind is merged.
pub open spec fn trace_end_so_far(payload: Option<PayloadView>) -> TraceEnd {
    match payload {
        Some(PayloadView::TraceEnd(m)) => m,
        _ => TraceEnd { exit_code: 0 },
    }
}

/// The function call into which a field of that kind is merged.
pub open spec fn call_so_far(payload: Option<PayloadView>) -> FunctionCallView {
    match payload {
        Some(PayloadView::FunctionCall(m)) => m,
        _ => FunctionCallView::empty(),
    }
}

/// The function return into which a field of that kind is merged.
pub open spec fn return_so_far(payload: Option<PayloadView>) -> FunctionReturnView {
    match payload {
        Some(PayloadView::FunctionReturn(m)) => m,
        _ => FunctionReturnView::empty(),
    }
}

/// The signal delivery into which a field of that kind is merged.
pub open spec fn signal_so_far(payload: Option<PayloadView>) -> SignalDeliveryView {
    match payload {
        Some(PayloadView::SignalDelivery(m)) => m,
        _ => SignalDeliveryView::empty(),
    }
}

impl WireMessage for Event {
    type Model = RecordView;

    open spec fn model(&self) -> RecordView {
        self@
    }

    open spec fn read_as(key: FieldKey) -> u8 {
        key.wire
    }

    fn wire_of(key: &FieldKey) -> (wire: u8) {
        key.wire
    }

    /// Field 1 is the event id, field 2 the thread id, field 3 the time, and
    /// fields 10 to 14 are the payload by kind: the last kind seen is the
    /// payload, and fields of the same kind in a row merge into one.
    open spec fn put(acc: RecordView, field: FieldView, depth: nat) -> Result<
        RecordView,
        DecodeFault,
    > {
        if field.key.tag == 1 {
            match as_varint(field) {
                Err(fault) => Err(fault),
                Ok(v) => Ok(RecordView { event_id: v, ..acc }),
            }
        } else if field.key.tag == 2 {
            match as_varint(field) {
                Err(fault) => Err(fault),
                Ok(v) => Ok(RecordView { thread_id: v as i32, ..acc }),
            }
        } else if field.key.tag == 3 {
            match as_message::<Timestamp>(field, time_so_far(acc.timestamp), depth) {
                Err(fault) => Err(fault),
                Ok(ts) => Ok(RecordView { timestamp: Some(ts), ..acc }),
            }
        } else if field.key.tag == 10 {
            match as_message::<TraceStart>(field, trace_start_so_far(acc.payload), depth) {
                Err(fault) => Err(fault),
                Ok(m) => Ok(RecordView { payload: Some(PayloadView::TraceStart(m)), ..acc }),
            }
        } else if field.key.tag == 11 {
            match as_message::<TraceEnd>(field, trace_end_so_far(acc.payload), depth) {
                Err(fault) => Err(fault),
                Ok(m) => Ok(RecordView { payload: Some(PayloadView::TraceEnd(m)), ..acc }),
            }
        } else if field.key.tag == 12 {
            match as_message::<FunctionCall>(field, call_so_far(acc.payload), depth) {
                Err(fault) => Err(fault),
                Ok(m) => Ok(RecordView { payload: Some(PayloadView::FunctionCall(m)), ..acc }),
            }
        } else if field.key.tag == 13 {
            match as_message::<FunctionReturn>(field, return_so_far(acc.payload), depth) {
                Err(fault) => Err(fault),
                Ok(m) => Ok(RecordView { payload: Some(PayloadView::FunctionReturn(m)), ..acc }),
            }
        } else if field.key.tag == 14 {
            match as_message::<SignalDelivery>(field, signal_so_far(acc.payload), depth) {
                Err(fault) => Err(fault),
                Ok(m) => Ok(RecordView { payload: Some(PayloadView::SignalDelivery(m)), ..acc }),
            }
        } else {
            Ok(acc)
        }
    }

    fn merge_field(self, body: &[u8], field: &Field, depth: u32) -> (r: Result<
        Self,
        DecodeFault,
    >) {
        let mut m = self;
        if field.key.tag == 1 {
            m.event_id = field_varint(field)?;
        } else if field.key.tag == 2 {
            let v = field_varint(field)?;
            m.thread_id = #[verifier::truncate]
            (v as i32);
        } else if field.key.tag == 3 {
            let start = match m.timestamp {
                Some(ts) => ts,
                None => Timestamp { seconds: 0, nanos: 0 },
            };
            m.timestamp = Some(field_message(body, field, start, depth)?);
        } else if field.key.tag == 10 {
            let start = match m.payload {
                Some(Payload::TraceStart(inner)) => inner,
                _ => TraceStart::default(),
            };
            m.payload = Some(Payload::TraceStart(field_message(body, field, start, depth)?));
        } else if field.key.tag == 11 {
            let start = match m.payload {
                Some(Payload::TraceEnd(inner)) => inner,
                _ => TraceEnd::default(),
            };
            m.payload = Some(Payload::TraceEnd(field_message(body, field, start, depth)?));
        } else if field.key.tag == 12 {
            let start = match m.payload {
                Some(Payload::FunctionCall(inner)) => inner,
                _ => FunctionCall::default(),
            };
            m.payload = Some(Payload::FunctionCall(field_message(body, field, start, depth)?));
        } else if field.key.tag == 13 {
            let start = match m.payload {
                Some(Payload::FunctionReturn(inner)) => inner,
                _ => FunctionReturn::default(),
            };
            m.payload = Some(Payload::FunctionReturn(field_message(body, field, start, depth)?));
        } else if field.key.tag == 14 {
            let start = match m.payload {
                Some(Payload::SignalDelivery(inner)) => inner,
                _ => SignalDelivery::default(),
            };
            m.payload = Some(Payload::SignalDelivery(field_message(body, field, start, depth)?));
        }
        Ok(m)
    }
}

/// The record that the message body `s` holds.
pub open spec fn record_of(s: Seq<u8>) -> Result<RecordView, DecodeFault> {
    merged::<Event>(s, 0, RecordView::empty(), (RECURSION_LIMIT - 1) as nat)
}

/// Decodes the record that the message body `body` holds.
pub fn decode_record(body: &[u8]) -> (r: Result<Event, DecodeFault>)
    ensures
        match r {
            Ok(event) => record_of(body@) == Ok::<_, DecodeFault>(event@),
            Err(fault) => record_of(body@) == Err::<RecordView, _>(fault),
        },
{
    merge_message(body, Event::default(), RECURSION_LIMIT - 1)
}

} // verus!
