//! How the records of the event log are written, and that what is written
//! is read back as it was.

use crate::atf::codec::{
    as_bytes, as_message, as_register, as_text, as_varint, field_of, merged, RegisterEntry,
    WireMessage,
};
use crate::atf::codec::{
    call_so_far, record_of, return_so_far, signal_so_far, time_so_far, trace_end_so_far,
    trace_start_so_far,
};
use crate::atf::error::DecodeFault;
use crate::atf::reader::{frame_at, log_events, log_from};
use crate::atf::event::{
    payload_view, registers_view, texts_view, Event, EventView, FunctionCall, FunctionCallView, FunctionReturn, FunctionReturnView, Payload,
    PayloadView, RecordView, Register, SignalDelivery, SignalDeliveryView, Timestamp, TraceEnd,
    TraceStart, TraceStartView,
};
use crate::atf::wire::{
    key_at, key_of, value_at, varint, varint_stop, varint_sum, FieldKey, FieldView,
    WIRE_LENGTH_DELIMITED, WIRE_VARINT,
};
use vstd::prelude::*;
use vstd::utf8::{encode_utf8, encode_utf8_decode_utf8, encode_utf8_valid_utf8};

verus! {

/// The bytes of the variable-length integer `v`: its digits in base 128,
/// lowest first, each but the last with the high bit set.
pub open spec fn varint_bytes(v: nat) -> Seq<u8>
    decreases v,
{
    if v < 128 {
        seq![v as u8]
    } else {
        seq![(v % 128 + 128) as u8] + varint_bytes(v / 128)
    }
}

/// Appends the variable-length integer `v` to `out`.
pub fn write_varint(out: &mut Vec<u8>, v: u64)
    ensures
        final(out)@ == old(out)@ + varint_bytes(v as nat),
{
    let mut rest = v;
    let ghost written = Seq::<u8>::empty();
    assert(old(out)@ + written =~= old(out)@);
    while rest >= 128
        invariant
            out@ == old(out)@ + written,
            varint_bytes(v as nat) == written + varint_bytes(rest as nat),
        decreases rest,
    {
        let byte = (rest % 128 + 128) as u8;
        out.push(byte);
        proof {
            assert(varint_bytes(rest as nat) == seq![byte] + varint_bytes((rest / 128) as nat));
            assert(written + (seq![byte] + varint_bytes((rest / 128) as nat)) =~= written.push(
                byte,
            ) + varint_bytes((rest / 128) as nat));
            assert(old(out)@ + written.push(byte) =~= (old(out)@ + written).push(byte));
            written = written.push(byte);
        }
        rest = rest / 128;
    }
    out.push(rest as u8);
    proof {
        assert(varint_bytes(rest as nat) =~= seq![rest as u8]);
        assert(old(out)@ + (written + seq![rest as u8]) =~= (old(out)@ + written).push(rest as u8));
    }
}

/// The bytes of a variable-length integer end where the first byte below
/// `0x80` stands.
pub proof fn lemma_varint_bytes_stop(whole: Seq<u8>, i: nat, v: nat, rest: Seq<u8>)
    requires
        i <= whole.len(),
        whole.skip(i as int) == varint_bytes(v) + rest,
        i + varint_bytes(v).len() <= 10,
    ensures
        varint_stop(whole, i) == Some(i + varint_bytes(v).len()),
    decreases v,
{
    let tail = varint_bytes(v) + rest;
    assert(varint_bytes(v).len() >= 1);
    assert(whole.skip(i as int).len() == whole.len() - i);
    assert(whole.skip(i as int)[0] == whole[i as int]);
    assert(tail[0] == varint_bytes(v)[0]);
    if v >= 128 {
        assert(whole.skip(i as int + 1) =~= varint_bytes(v / 128) + rest) by {
            assert(whole.skip(i as int + 1) =~= whole.skip(i as int).skip(1));
        }
        lemma_varint_bytes_stop(whole, i + 1, v / 128, rest);
    }
}

/// The bytes of a variable-length integer spell the integer.
pub proof fn lemma_varint_bytes_sum(v: nat, rest: Seq<u8>)
    ensures
        varint_sum(varint_bytes(v) + rest, varint_bytes(v).len()) == v,
    decreases v,
{
    let s = varint_bytes(v) + rest;
    if v < 128 {
        assert(varint_sum(s.skip(1), 0) == 0);
    } else {
        assert(s.skip(1) =~= varint_bytes(v / 128) + rest);
        lemma_varint_bytes_sum(v / 128, rest);
    }
}

/// A number of 64 bits takes at most ten bytes, and the tenth is at most
/// one.
pub proof fn lemma_varint_bytes_len(v: nat)
    requires
        v <= u64::MAX,
    ensures
        1 <= varint_bytes(v).len() <= 10,
        varint_bytes(v).len() == 10 ==> varint_bytes(v)[9] <= 1,
{
    reveal_with_fuel(varint_bytes, 11);
    let v1 = v / 128;
    let v2 = v1 / 128;
    let v3 = v2 / 128;
    let v4 = v3 / 128;
    let v5 = v4 / 128;
    let v6 = v5 / 128;
    let v7 = v6 / 128;
    let v8 = v7 / 128;
    let v9 = v8 / 128;
    assert(v9 <= 1);
    if v9 >= 1 {
        assert(varint_bytes(v9) =~= seq![v9 as u8]);
    }
}

/// Round trip of variable-length integers: what is written for a number of
/// 64 bits is read back as that number, whatever follows it.
pub proof fn lemma_varint_round_trip(v: nat, rest: Seq<u8>)
    requires
        v <= u64::MAX,
    ensures
        varint(varint_bytes(v) + rest) == Some((v, varint_bytes(v).len())),
{
    let s = varint_bytes(v) + rest;
    lemma_varint_bytes_len(v);
    assert(s.skip(0) =~= s);
    lemma_varint_bytes_stop(s, 0, v, rest);
    lemma_varint_bytes_sum(v, rest);
    if varint_bytes(v).len() == 10 {
        assert(s[9] == varint_bytes(v)[9]);
    }
}

/// The bytes are few enough for their number to be written.
pub open spec fn short(bytes: Seq<u8>) -> bool {
    bytes.len() <= u64::MAX
}

/// The largest tag that a field can have.
pub const MAX_TAG: u32 = 0x1fff_ffff;

/// The bytes of the key of a field.
pub open spec fn key_bytes(tag: u32, wire: u8) -> Seq<u8> {
    varint_bytes((tag * 8 + wire) as nat)
}

/// The bytes of a field that holds a variable-length integer.
pub open spec fn varint_field(tag: u32, v: u64) -> Seq<u8> {
    key_bytes(tag, WIRE_VARINT) + varint_bytes(v as nat)
}

/// The bytes of a field that holds a length and that many bytes.
pub open spec fn bytes_field(tag: u32, payload: Seq<u8>) -> Seq<u8> {
    key_bytes(tag, WIRE_LENGTH_DELIMITED) + varint_bytes(payload.len()) + payload
}

/// Appends the key of a field to `out`.
pub fn write_key(out: &mut Vec<u8>, tag: u32, wire: u8)
    ensures
        final(out)@ == old(out)@ + key_bytes(tag, wire),
{
    write_varint(out, tag as u64 * 8 + wire as u64);
}

/// Appends a field that holds a variable-length integer to `out`.
pub fn write_varint_field(out: &mut Vec<u8>, tag: u32, v: u64)
    ensures
        final(out)@ == old(out)@ + varint_field(tag, v),
{
    write_key(out, tag, WIRE_VARINT);
    write_varint(out, v);
    assert(old(out)@ + key_bytes(tag, WIRE_VARINT) + varint_bytes(v as nat) =~= old(out)@
        + varint_field(tag, v));
}

/// Appends a field that holds a length and that many bytes to `out`.
pub fn write_bytes_field(out: &mut Vec<u8>, tag: u32, payload: &[u8])
    ensures
        final(out)@ == old(out)@ + bytes_field(tag, payload@),
        short(payload@),
{
    write_key(out, tag, WIRE_LENGTH_DELIMITED);
    write_varint(out, payload.len() as u64);
    out.extend_from_slice(payload);
    assert(old(out)@ + key_bytes(tag, WIRE_LENGTH_DELIMITED) + varint_bytes(payload@.len())
        + payload@ =~= old(out)@ + bytes_field(tag, payload@));
}

/// The key that is written for a field is read back.
pub proof fn lemma_key_round_trip(s: Seq<u8>, pos: int, tag: u32, wire: u8, rest: Seq<u8>)
    requires
        0 <= pos <= s.len(),
        s.skip(pos) == key_bytes(tag, wire) + rest,
        1 <= tag <= MAX_TAG,
        wire <= 5,
    ensures
        key_at(s, pos) == Ok::<_, DecodeFault>(
            (FieldKey { tag, wire }, pos + key_bytes(tag, wire).len()),
        ),
        s.skip(pos + key_bytes(tag, wire).len()) == rest,
{
    let k = (tag * 8 + wire) as nat;
    lemma_varint_round_trip(k, rest);
    assert(k / 8 == tag && k % 8 == wire);
    assert(s.skip(pos + key_bytes(tag, wire).len()) =~= rest) by {
        assert(s.skip(pos).skip(key_bytes(tag, wire).len() as int) =~= rest);
        assert(s.skip(pos).skip(key_bytes(tag, wire).len() as int) =~= s.skip(
            pos + key_bytes(tag, wire).len(),
        ));
    }
}

/// The merging of a message goes on behind a field that holds a
/// variable-length integer, with what the message makes of that field.
pub proof fn lemma_merge_varint_field<M: WireMessage>(
    s: Seq<u8>,
    pos: int,
    tag: u32,
    v: u64,
    rest: Seq<u8>,
    acc: M::Model,
    depth: nat,
)
    requires
        0 <= pos <= s.len(),
        s.skip(pos) == varint_field(tag, v) + rest,
        1 <= tag <= MAX_TAG,
        depth >= 1,
        M::read_as(FieldKey { tag, wire: WIRE_VARINT }) == WIRE_VARINT,
    ensures
        s.skip(pos + varint_field(tag, v).len()) == rest,
        merged::<M>(s, pos, acc, depth) == match M::put(
            acc,
            FieldView {
                key: FieldKey { tag, wire: WIRE_VARINT },
                value: v,
                payload: Seq::empty(),
                next: pos + varint_field(tag, v).len(),
            },
            depth,
        ) {
            Ok(better) => merged::<M>(s, pos + varint_field(tag, v).len(), better, depth),
            Err(fault) => Err(fault),
        },
{
    let key = key_bytes(tag, WIRE_VARINT);
    let number = varint_bytes(v as nat);
    assert(s.skip(pos) =~= key + (number + rest));
    lemma_key_round_trip(s, pos, tag, WIRE_VARINT, number + rest);
    let behind = pos + key.len();
    lemma_varint_round_trip(v as nat, rest);
    lemma_varint_bytes_len(v as nat);
    assert(s.skip(behind + number.len()) =~= rest) by {
        assert(s.skip(behind).skip(number.len() as int) =~= rest);
        assert(s.skip(behind).skip(number.len() as int) =~= s.skip(behind + number.len()));
    }
    assert(s.skip(pos).len() == s.len() - pos);
    assert(key.len() >= 1) by {
        lemma_varint_bytes_len((tag * 8 + WIRE_VARINT) as nat);
    }
}

/// The merging of a message goes on behind a field that holds a length and
/// that many bytes, with what the message makes of that field.
pub proof fn lemma_merge_bytes_field<M: WireMessage>(
    s: Seq<u8>,
    pos: int,
    tag: u32,
    payload: Seq<u8>,
    rest: Seq<u8>,
    acc: M::Model,
    depth: nat,
)
    requires
        0 <= pos <= s.len(),
        s.skip(pos) == bytes_field(tag, payload) + rest,
        payload.len() <= u64::MAX,
        1 <= tag <= MAX_TAG,
        depth >= 1,
        M::read_as(FieldKey { tag, wire: WIRE_LENGTH_DELIMITED }) == WIRE_LENGTH_DELIMITED,
    ensures
        s.skip(pos + bytes_field(tag, payload).len()) == rest,
        merged::<M>(s, pos, acc, depth) == match M::put(
            acc,
            FieldView {
                key: FieldKey { tag, wire: WIRE_LENGTH_DELIMITED },
                value: 0,
                payload,
                next: pos + bytes_field(tag, payload).len(),
            },
            depth,
        ) {
            Ok(better) => merged::<M>(s, pos + bytes_field(tag, payload).len(), better, depth),
            Err(fault) => Err(fault),
        },
{
    let key = key_bytes(tag, WIRE_LENGTH_DELIMITED);
    let length = varint_bytes(payload.len());
    assert(s.skip(pos) =~= key + (length + (payload + rest)));
    lemma_key_round_trip(s, pos, tag, WIRE_LENGTH_DELIMITED, length + (payload + rest));
    let behind = pos + key.len();
    lemma_varint_round_trip(payload.len(), payload + rest);
    lemma_varint_bytes_len(payload.len());
    let start = behind + length.len();
    assert(s.skip(start) =~= payload + rest) by {
        assert(s.skip(behind).skip(length.len() as int) =~= payload + rest);
        assert(s.skip(behind).skip(length.len() as int) =~= s.skip(start));
    }
    assert(s.skip(start).len() == s.len() - start);
    assert(s.subrange(start, start + payload.len()) =~= payload) by {
        assert(s.skip(start).take(payload.len() as int) =~= payload);
        assert(s.skip(start).take(payload.len() as int) =~= s.subrange(
            start,
            start + payload.len(),
        ));
    }
    assert(s.skip(start + payload.len()) =~= rest) by {
        assert(s.skip(start).skip(payload.len() as int) =~= rest);
        assert(s.skip(start).skip(payload.len() as int) =~= s.skip(start + payload.len()));
    }
    assert(key.len() >= 1) by {
        lemma_varint_bytes_len((tag * 8 + WIRE_LENGTH_DELIMITED) as nat);
    }
}

/// The 64 bits that are written for a signed number of 32 bits: the number
/// with its sign carried on.
pub open spec fn int32_bits(v: i32) -> u64 {
    if v >= 0 {
        v as u64
    } else {
        (0x1_0000_0000_0000_0000 + v) as u64
    }
}

/// The 64 bits that are written for a signed number of 64 bits.
pub open spec fn int64_bits(v: i64) -> u64 {
    if v >= 0 {
        v as u64
    } else {
        (0x1_0000_0000_0000_0000 + v) as u64
    }
}

/// Computes [`int32_bits`].
pub fn bits_of_i32(v: i32) -> (bits: u64)
    ensures
        bits == int32_bits(v),
        bits as i32 == v,
        bits == 0 <==> v == 0,
{
    let bits = #[verifier::truncate]
    ((v as i64) as u64);
    assert(bits == int32_bits(v) && bits as i32 == v) by (bit_vector)
        requires
            bits == (v as i64) as u64,
    ;
    bits
}

/// Computes [`int64_bits`].
pub fn bits_of_i64(v: i64) -> (bits: u64)
    ensures
        bits == int64_bits(v),
        bits as i64 == v,
        bits == 0 <==> v == 0,
{
    let bits = #[verifier::truncate]
    (v as u64);
    assert(bits == int64_bits(v) && bits as i64 == v) by (bit_vector)
        requires
            bits == v as u64,
    ;
    bits
}

/// The bits that are written for a signed number are read back as the
/// number.
pub proof fn lemma_signed_bits(a: i32, b: i64)
    ensures
        int32_bits(a) as i32 == a,
        int32_bits(a) == 0 <==> a == 0,
        int64_bits(b) as i64 == b,
        int64_bits(b) == 0 <==> b == 0,
{
    let x = (a as i64) as u64;
    assert(x == int32_bits(a) && x as i32 == a) by (bit_vector)
        requires
            x == (a as i64) as u64,
    ;
    let y = b as u64;
    assert(y == int64_bits(b) && y as i64 == b) by (bit_vector)
        requires
            y == b as u64,
    ;
}

/// A field that holds a variable-length integer, left out where the
/// integer is zero.
pub open spec fn opt_varint(tag: u32, v: u64) -> Seq<u8> {
    if v == 0 {
        Seq::empty()
    } else {
        varint_field(tag, v)
    }
}

/// A field that holds bytes, left out where there are none.
pub open spec fn opt_bytes(tag: u32, payload: Seq<u8>) -> Seq<u8> {
    if payload.len() == 0 {
        Seq::empty()
    } else {
        bytes_field(tag, payload)
    }
}

/// A field that holds a text in UTF-8, left out where the text is empty.
pub open spec fn opt_text(tag: u32, text: Seq<char>) -> Seq<u8> {
    opt_bytes(tag, encode_utf8(text))
}

/// Appends a field that holds a variable-length integer to `out`, unless
/// the integer is zero.
pub fn write_opt_varint(out: &mut Vec<u8>, tag: u32, v: u64)
    ensures
        final(out)@ == old(out)@ + opt_varint(tag, v),
{
    if v != 0 {
        write_varint_field(out, tag, v);
    } else {
        assert(old(out)@ + Seq::<u8>::empty() =~= old(out)@);
    }
}

/// Appends a field that holds bytes to `out`, unless there are none.
pub fn write_opt_bytes(out: &mut Vec<u8>, tag: u32, payload: &[u8])
    ensures
        final(out)@ == old(out)@ + opt_bytes(tag, payload@),
        short(payload@),
{
    if payload.len() != 0 {
        write_bytes_field(out, tag, payload);
    } else {
        assert(old(out)@ + Seq::<u8>::empty() =~= old(out)@);
    }
}

/// Appends a field that holds a text to `out`, unless the text is empty.
pub fn write_opt_text(out: &mut Vec<u8>, tag: u32, text: &str)
    ensures
        final(out)@ == old(out)@ + opt_text(tag, text@),
        short(encode_utf8(text@)),
{
    let bytes = text.as_bytes();
    write_opt_bytes(out, tag, bytes);
}

/// Where nothing is left to read, the message is what it has become.
pub proof fn lemma_merge_at_end<M: WireMessage>(s: Seq<u8>, pos: int, acc: M::Model, depth: nat)
    requires
        0 <= pos <= s.len(),
        s.skip(pos).len() == 0,
    ensures
        merged::<M>(s, pos, acc, depth) == Ok::<_, DecodeFault>(acc),
{
    assert(s.skip(pos).len() == s.len() - pos);
}

/// What is written for a time.
pub open spec fn timestamp_bytes(ts: Timestamp) -> Seq<u8> {
    opt_varint(1, int64_bits(ts.seconds)) + opt_varint(2, int32_bits(ts.nanos))
}

/// Appends a time to `out`.
pub fn write_timestamp(out: &mut Vec<u8>, ts: &Timestamp)
    ensures
        final(out)@ == old(out)@ + timestamp_bytes(*ts),
{
    write_opt_varint(out, 1, bits_of_i64(ts.seconds));
    write_opt_varint(out, 2, bits_of_i32(ts.nanos));
    assert(old(out)@ + opt_varint(1, int64_bits(ts.seconds)) + opt_varint(
        2,
        int32_bits(ts.nanos),
    ) =~= old(out)@ + timestamp_bytes(*ts));
}

/// A time that is written is read back.
pub proof fn lemma_timestamp_round_trip(s: Seq<u8>, pos: int, ts: Timestamp, depth: nat)
    requires
        0 <= pos <= s.len(),
        s.skip(pos) == timestamp_bytes(ts),
        depth >= 1,
    ensures
        merged::<Timestamp>(s, pos, Timestamp { seconds: 0, nanos: 0 }, depth) == Ok::<
            _,
            DecodeFault,
        >(ts),
{
    lemma_signed_bits(ts.nanos, ts.seconds);
    let first = opt_varint(1, int64_bits(ts.seconds));
    let second = opt_varint(2, int32_bits(ts.nanos));
    let zero = Timestamp { seconds: 0, nanos: 0 };
    let after_first = Timestamp { seconds: ts.seconds, nanos: 0 };
    let p1 = pos + first.len();
    if ts.seconds != 0 {
        lemma_merge_varint_field::<Timestamp>(s, pos, 1, int64_bits(ts.seconds), second, zero, depth);
    } else {
        assert(s.skip(pos) =~= second);
    }
    assert(merged::<Timestamp>(s, pos, zero, depth) == merged::<Timestamp>(
        s,
        p1,
        after_first,
        depth,
    ));
    assert(s.skip(p1) == second);
    let p2 = p1 + second.len();
    if ts.nanos != 0 {
        assert(s.skip(p1) =~= second + Seq::<u8>::empty());
        lemma_merge_varint_field::<Timestamp>(
            s,
            p1,
            2,
            int32_bits(ts.nanos),
            Seq::empty(),
            after_first,
            depth,
        );
    }
    assert(s.skip(p1).len() == s.len() - p1);
    lemma_merge_at_end::<Timestamp>(s, p2, ts, depth);
}

/// What is written for the end of a trace.
pub open spec fn trace_end_bytes(m: TraceEnd) -> Seq<u8> {
    opt_varint(1, int32_bits(m.exit_code))
}

/// Appends the end of a trace to `out`.
pub fn write_trace_end(out: &mut Vec<u8>, m: &TraceEnd)
    ensures
        final(out)@ == old(out)@ + trace_end_bytes(*m),
{
    write_opt_varint(out, 1, bits_of_i32(m.exit_code));
}

/// The end of a trace that is written is read back.
pub proof fn lemma_trace_end_round_trip(s: Seq<u8>, pos: int, m: TraceEnd, depth: nat)
    requires
        0 <= pos <= s.len(),
        s.skip(pos) == trace_end_bytes(m),
        depth >= 1,
    ensures
        merged::<TraceEnd>(s, pos, TraceEnd { exit_code: 0 }, depth) == Ok::<_, DecodeFault>(m),
{
    lemma_signed_bits(m.exit_code, 0);
    let zero = TraceEnd { exit_code: 0 };
    if m.exit_code != 0 {
        assert(s.skip(pos) =~= trace_end_bytes(m) + Seq::<u8>::empty());
        lemma_merge_varint_field::<TraceEnd>(
            s,
            pos,
            1,
            int32_bits(m.exit_code),
            Seq::empty(),
            zero,
            depth,
        );
    }
    assert(s.skip(pos).len() == s.len() - pos);
    lemma_merge_at_end::<TraceEnd>(s, pos + trace_end_bytes(m).len(), m, depth);
}

/// A text that is written is read back.
pub proof fn lemma_text_round_trip(tag: u32, text: Seq<char>, next: int)
    ensures
        as_text(
            FieldView {
                key: FieldKey { tag, wire: WIRE_LENGTH_DELIMITED },
                value: 0,
                payload: encode_utf8(text),
                next,
            },
        ) == Ok::<_, DecodeFault>(text),
{
    encode_utf8_valid_utf8(text);
    encode_utf8_decode_utf8(text);
}

/// What is written for a register: its name and its value.
pub open spec fn register_bytes(r: (Seq<char>, u64)) -> Seq<u8> {
    opt_text(1, r.0) + opt_varint(2, r.1)
}

/// The texts and message bodies of a register are short enough for their
/// lengths to be written.
pub open spec fn register_fits(r: (Seq<char>, u64)) -> bool {
    encode_utf8(r.0).len() <= u64::MAX
}

/// A register that is written is read back.
pub proof fn lemma_register_round_trip(s: Seq<u8>, pos: int, r: (Seq<char>, u64), depth: nat)
    requires
        0 <= pos <= s.len(),
        s.skip(pos) == register_bytes(r),
        register_fits(r),
        depth >= 1,
    ensures
        merged::<RegisterEntry>(s, pos, (Seq::empty(), 0), depth) == Ok::<_, DecodeFault>(r),
{
    let name = opt_text(1, r.0);
    let value = opt_varint(2, r.1);
    let zero: (Seq<char>, u64) = (Seq::empty(), 0);
    let after_name: (Seq<char>, u64) = (r.0, 0);
    let p1 = pos + name.len();
    if encode_utf8(r.0).len() != 0 {
        lemma_text_round_trip(1, r.0, pos + name.len());
        lemma_merge_bytes_field::<RegisterEntry>(s, pos, 1, encode_utf8(r.0), value, zero, depth);
    } else {
        assert(s.skip(pos) =~= value);
        lemma_empty_text(r.0);
        assert(r.0 =~= Seq::<char>::empty());
    }
    assert(merged::<RegisterEntry>(s, pos, zero, depth) == merged::<RegisterEntry>(
        s,
        p1,
        after_name,
        depth,
    ));
    if r.1 != 0 {
        assert(s.skip(p1) =~= value + Seq::<u8>::empty());
        lemma_merge_varint_field::<RegisterEntry>(s, p1, 2, r.1, Seq::empty(), after_name, depth);
    }
    assert(s.skip(p1).len() == s.len() - p1);
    lemma_merge_at_end::<RegisterEntry>(s, p1 + value.len(), r, depth);
}

/// A text whose UTF-8 form is empty is empty.
pub proof fn lemma_empty_text(text: Seq<char>)
    ensures
        encode_utf8(text).len() == 0 <==> text.len() == 0,
{
    encode_utf8_decode_utf8(text);
    if text.len() == 0 {
        assert(encode_utf8(text).len() == 0);
    } else if encode_utf8(text).len() == 0 {
        assert(vstd::utf8::decode_utf8(encode_utf8(text)).len() == 0);
    }
}

/// What is written for a list of texts: a field for each, in order.
pub open spec fn texts_bytes(tag: u32, texts: Seq<Seq<char>>) -> Seq<u8>
    decreases texts.len(),
{
    if texts.len() == 0 {
        Seq::empty()
    } else {
        bytes_field(tag, encode_utf8(texts[0])) + texts_bytes(tag, texts.skip(1))
    }
}

/// What is written for a list of registers: a field for each, in order.
pub open spec fn registers_bytes(tag: u32, registers: Seq<(Seq<char>, u64)>) -> Seq<u8>
    decreases registers.len(),
{
    if registers.len() == 0 {
        Seq::empty()
    } else {
        bytes_field(tag, register_bytes(registers[0])) + registers_bytes(tag, registers.skip(1))
    }
}

/// Each register of the list can be written.
pub open spec fn registers_fit(registers: Seq<(Seq<char>, u64)>) -> bool {
    forall|i: int|
        0 <= i < registers.len() ==> register_fits(#[trigger] registers[i]) && short(
            register_bytes(registers[i]),
        )
}

/// Each text of the list can be written.
pub open spec fn texts_fit(texts: Seq<Seq<char>>) -> bool {
    forall|i: int| 0 <= i < texts.len() ==> short(encode_utf8(#[trigger] texts[i]))
}

/// Appends a register to `out`.
pub fn write_register(out: &mut Vec<u8>, register: &Register)
    ensures
        final(out)@ == old(out)@ + register_bytes((register.0@, register.1)),
        register_fits((register.0@, register.1)),
{
    write_opt_text(out, 1, register.0.as_str());
    write_opt_varint(out, 2, register.1);
    assert(old(out)@ + opt_text(1, register.0@) + opt_varint(2, register.1) =~= old(out)@
        + register_bytes((register.0@, register.1)));
}

/// Appends a list of registers to `out`.
pub fn write_registers(out: &mut Vec<u8>, tag: u32, registers: &Vec<Register>)
    ensures
        final(out)@ == old(out)@ + registers_bytes(tag, registers_view(registers@)),
        registers_fit(registers_view(registers@)),
{
    let ghost all = registers_view(registers@);
    let mut i: usize = 0;
    assert(all.skip(0) =~= all);
    assert(old(out)@ + Seq::<u8>::empty() =~= old(out)@);
    let ghost written = Seq::<u8>::empty();
    while i < registers.len()
        invariant
            i <= registers.len(),
            all == registers_view(registers@),
            out@ == old(out)@ + written,
            registers_bytes(tag, all) == written + registers_bytes(tag, all.skip(i as int)),
            forall|k: int|
                0 <= k < i ==> register_fits(#[trigger] all[k]) && short(register_bytes(all[k])),
        decreases registers.len() - i,
    {
        let mut entry: Vec<u8> = Vec::new();
        write_register(&mut entry, &registers[i]);
        assert(entry@ =~= register_bytes(all[i as int]));
        write_bytes_field(out, tag, entry.as_slice());
        proof {
            let field = bytes_field(tag, register_bytes(all[i as int]));
            assert(all.skip(i as int)[0] == all[i as int]);
            assert(all.skip(i as int).skip(1) =~= all.skip(i + 1));
            assert(written + (field + registers_bytes(tag, all.skip(i + 1))) =~= (written + field)
                + registers_bytes(tag, all.skip(i + 1)));
            assert(old(out)@ + written + field =~= old(out)@ + (written + field));
            written = written + field;
        }
        i += 1;
    }
    assert(written + Seq::<u8>::empty() =~= written);
}

/// Appends a list of texts to `out`.
pub fn write_texts(out: &mut Vec<u8>, tag: u32, texts: &Vec<String>)
    ensures
        final(out)@ == old(out)@ + texts_bytes(tag, texts_view(texts@)),
        texts_fit(texts_view(texts@)),
{
    let ghost all = texts_view(texts@);
    let mut i: usize = 0;
    assert(all.skip(0) =~= all);
    assert(old(out)@ + Seq::<u8>::empty() =~= old(out)@);
    let ghost written = Seq::<u8>::empty();
    while i < texts.len()
        invariant
            i <= texts.len(),
            all == texts_view(texts@),
            out@ == old(out)@ + written,
            texts_bytes(tag, all) == written + texts_bytes(tag, all.skip(i as int)),
            forall|k: int| 0 <= k < i ==> short(encode_utf8(#[trigger] all[k])),
        decreases texts.len() - i,
    {
        let bytes = texts[i].as_str().as_bytes();
        write_bytes_field(out, tag, bytes);
        proof {
            let field = bytes_field(tag, encode_utf8(all[i as int]));
            assert(all.skip(i as int)[0] == all[i as int]);
            assert(all.skip(i as int).skip(1) =~= all.skip(i + 1));
            assert(written + (field + texts_bytes(tag, all.skip(i + 1))) =~= (written + field)
                + texts_bytes(tag, all.skip(i + 1)));
            assert(old(out)@ + written + field =~= old(out)@ + (written + field));
            written = written + field;
        }
        i += 1;
    }
    assert(written + Seq::<u8>::empty() =~= written);
}

/// The message after the registers of a list have been put into it one by
/// one.
pub open spec fn put_all<A>(
    acc: A,
    registers: Seq<(Seq<char>, u64)>,
    put_one: spec_fn(A, (Seq<char>, u64)) -> A,
) -> A
    decreases registers.len(),
{
    if registers.len() == 0 {
        acc
    } else {
        put_all(put_one(acc, registers[0]), registers.skip(1), put_one)
    }
}

/// The merging of a message goes on behind a list of registers, with each
/// register put into the message. `put_one` is what the message does with
/// one register of its field 3.
pub proof fn lemma_merge_registers<M: WireMessage>(
    s: Seq<u8>,
    pos: int,
    registers: Seq<(Seq<char>, u64)>,
    rest: Seq<u8>,
    acc: M::Model,
    depth: nat,
    put_one: spec_fn(M::Model, (Seq<char>, u64)) -> M::Model,
)
    requires
        0 <= pos <= s.len(),
        s.skip(pos) == registers_bytes(3, registers) + rest,
        registers_fit(registers),
        depth >= 2,
        M::read_as(FieldKey { tag: 3, wire: WIRE_LENGTH_DELIMITED }) == WIRE_LENGTH_DELIMITED,
        forall|m: M::Model, fv: FieldView|
            fv.key == (FieldKey { tag: 3, wire: WIRE_LENGTH_DELIMITED }) ==> #[trigger] M::put(
                m,
                fv,
                depth,
            ) == match as_register(fv, depth) {
                Ok(r) => Ok::<_, DecodeFault>(put_one(m, r)),
                Err(fault) => Err(fault),
            },
    ensures
        s.skip(pos + registers_bytes(3, registers).len()) == rest,
        merged::<M>(s, pos, acc, depth) == merged::<M>(
            s,
            pos + registers_bytes(3, registers).len(),
            put_all(acc, registers, put_one),
            depth,
        ),
    decreases registers.len(),
{
    if registers.len() == 0 {
        assert(s.skip(pos) =~= rest);
    } else {
        let first = registers[0];
        let entry = register_bytes(first);
        let field = bytes_field(3, entry);
        let others = registers_bytes(3, registers.skip(1));
        assert(s.skip(pos) =~= field + (others + rest));
        lemma_merge_bytes_field::<M>(s, pos, 3, entry, others + rest, acc, depth);
        let fv = FieldView {
            key: FieldKey { tag: 3, wire: WIRE_LENGTH_DELIMITED },
            value: 0,
            payload: entry,
            next: pos + field.len(),
        };
        assert(entry.skip(0) =~= entry);
        lemma_register_round_trip(entry, 0, first, (depth - 1) as nat);
        assert(as_register(fv, depth) == Ok::<_, DecodeFault>(first));
        assert(M::put(acc, fv, depth) == Ok::<_, DecodeFault>(put_one(acc, first)));
        assert(registers_fit(registers.skip(1))) by {
            assert forall|i: int| 0 <= i < registers.skip(1).len() implies register_fits(
                #[trigger] registers.skip(1)[i],
            ) && short(register_bytes(registers.skip(1)[i])) by {
                assert(registers.skip(1)[i] == registers[i + 1]);
            }
        }
        lemma_merge_registers::<M>(
            s,
            pos + field.len(),
            registers.skip(1),
            rest,
            put_one(acc, first),
            depth,
            put_one,
        );
    }
}

/// What is written for the start of a trace.
pub open spec fn trace_start_bytes(m: TraceStartView) -> Seq<u8> {
    opt_text(1, m.executable_path) + texts_bytes(2, m.args) + opt_text(3, m.operating_system)
        + opt_text(4, m.cpu_architecture)
}

/// The start of a trace can be written.
pub open spec fn trace_start_fits(m: TraceStartView) -> bool {
    &&& short(encode_utf8(m.executable_path))
    &&& texts_fit(m.args)
    &&& short(encode_utf8(m.operating_system))
    &&& short(encode_utf8(m.cpu_architecture))
}

/// Appends the start of a trace to `out`.
pub fn write_trace_start(out: &mut Vec<u8>, m: &TraceStart)
    ensures
        final(out)@ == old(out)@ + trace_start_bytes(m@),
        trace_start_fits(m@),
{
    write_opt_text(out, 1, m.executable_path.as_str());
    write_texts(out, 2, &m.args);
    write_opt_text(out, 3, m.operating_system.as_str());
    write_opt_text(out, 4, m.cpu_architecture.as_str());
    assert(old(out)@ + opt_text(1, m@.executable_path) + texts_bytes(2, m@.args) + opt_text(
        3,
        m@.operating_system,
    ) + opt_text(4, m@.cpu_architecture) =~= old(out)@ + trace_start_bytes(m@));
}

/// The merging of a trace start goes on behind a text field, with the text
/// in its place.
pub proof fn lemma_merge_opt_text<M: WireMessage>(
    s: Seq<u8>,
    pos: int,
    tag: u32,
    text: Seq<char>,
    rest: Seq<u8>,
    acc: M::Model,
    set: M::Model,
    depth: nat,
)
    requires
        0 <= pos <= s.len(),
        s.skip(pos) == opt_text(tag, text) + rest,
        short(encode_utf8(text)),
        1 <= tag <= MAX_TAG,
        depth >= 1,
        M::read_as(FieldKey { tag, wire: WIRE_LENGTH_DELIMITED }) == WIRE_LENGTH_DELIMITED,
        text.len() == 0 ==> set == acc,
        forall|fv: FieldView|
            fv.key == (FieldKey { tag, wire: WIRE_LENGTH_DELIMITED }) && as_text(fv) == Ok::<
                _,
                DecodeFault,
            >(text) ==> #[trigger] M::put(acc, fv, depth) == Ok::<_, DecodeFault>(set),
    ensures
        s.skip(pos + opt_text(tag, text).len()) == rest,
        merged::<M>(s, pos, acc, depth) == merged::<M>(
            s,
            pos + opt_text(tag, text).len(),
            set,
            depth,
        ),
{
    lemma_empty_text(text);
    if text.len() != 0 {
        lemma_text_round_trip(tag, text, pos + opt_text(tag, text).len());
        lemma_merge_bytes_field::<M>(s, pos, tag, encode_utf8(text), rest, acc, depth);
    } else {
        assert(s.skip(pos) =~= rest);
    }
}

/// The merging of a message goes on behind a field that holds a number,
/// with the number in its place.
pub proof fn lemma_merge_opt_varint<M: WireMessage>(
    s: Seq<u8>,
    pos: int,
    tag: u32,
    v: u64,
    rest: Seq<u8>,
    acc: M::Model,
    set: M::Model,
    depth: nat,
)
    requires
        0 <= pos <= s.len(),
        s.skip(pos) == opt_varint(tag, v) + rest,
        1 <= tag <= MAX_TAG,
        depth >= 1,
        M::read_as(FieldKey { tag, wire: WIRE_VARINT }) == WIRE_VARINT,
        v == 0 ==> set == acc,
        forall|fv: FieldView|
            fv.key == (FieldKey { tag, wire: WIRE_VARINT }) && fv.value == v ==> #[trigger] M::put(
                acc,
                fv,
                depth,
            ) == Ok::<_, DecodeFault>(set),
    ensures
        s.skip(pos + opt_varint(tag, v).len()) == rest,
        merged::<M>(s, pos, acc, depth) == merged::<M>(
            s,
            pos + opt_varint(tag, v).len(),
            set,
            depth,
        ),
{
    if v != 0 {
        lemma_merge_varint_field::<M>(s, pos, tag, v, rest, acc, depth);
    } else {
        assert(s.skip(pos) =~= rest);
    }
}

/// The merging of a trace start goes on behind its arguments, with the
/// arguments added in order.
pub proof fn lemma_merge_args(
    s: Seq<u8>,
    pos: int,
    args: Seq<Seq<char>>,
    rest: Seq<u8>,
    acc: TraceStartView,
    depth: nat,
)
    requires
        0 <= pos <= s.len(),
        s.skip(pos) == texts_bytes(2, args) + rest,
        texts_fit(args),
        depth >= 1,
    ensures
        s.skip(pos + texts_bytes(2, args).len()) == rest,
        merged::<TraceStart>(s, pos, acc, depth) == merged::<TraceStart>(
            s,
            pos + texts_bytes(2, args).len(),
            TraceStartView { args: acc.args + args, ..acc },
            depth,
        ),
    decreases args.len(),
{
    if args.len() == 0 {
        assert(s.skip(pos) =~= rest);
        assert(acc.args + args =~= acc.args);
    } else {
        let first = args[0];
        let field = bytes_field(2, encode_utf8(first));
        let others = texts_bytes(2, args.skip(1));
        assert(s.skip(pos) =~= field + (others + rest));
        lemma_text_round_trip(2, first, pos + field.len());
        lemma_merge_bytes_field::<TraceStart>(
            s,
            pos,
            2,
            encode_utf8(first),
            others + rest,
            acc,
            depth,
        );
        let next = TraceStartView { args: acc.args.push(first), ..acc };
        assert(texts_fit(args.skip(1))) by {
            assert forall|i: int| 0 <= i < args.skip(1).len() implies short(
                encode_utf8(#[trigger] args.skip(1)[i]),
            ) by {
                assert(args.skip(1)[i] == args[i + 1]);
            }
        }
        lemma_merge_args(s, pos + field.len(), args.skip(1), rest, next, depth);
        assert(acc.args.push(first) + args.skip(1) =~= acc.args + args);
    }
}

/// The start of a trace that is written is read back.
#[verifier::rlimit(40)]
pub proof fn lemma_trace_start_round_trip(s: Seq<u8>, pos: int, m: TraceStartView, depth: nat)
    requires
        0 <= pos <= s.len(),
        s.skip(pos) == trace_start_bytes(m),
        trace_start_fits(m),
        depth >= 1,
    ensures
        merged::<TraceStart>(s, pos, TraceStartView::empty(), depth) == Ok::<_, DecodeFault>(m),
{
    let f1 = opt_text(1, m.executable_path);
    let f2 = texts_bytes(2, m.args);
    let f3 = opt_text(3, m.operating_system);
    let f4 = opt_text(4, m.cpu_architecture);
    let a0 = TraceStartView::empty();
    let a1 = TraceStartView { executable_path: m.executable_path, ..a0 };
    let a2 = TraceStartView { args: m.args, ..a1 };
    let a3 = TraceStartView { operating_system: m.operating_system, ..a2 };
    if m.executable_path.len() == 0 {
        assert(m.executable_path =~= Seq::<char>::empty());
    }
    if m.operating_system.len() == 0 {
        assert(m.operating_system =~= Seq::<char>::empty());
    }
    if m.cpu_architecture.len() == 0 {
        assert(m.cpu_architecture =~= Seq::<char>::empty());
    }
    assert(a3 == (TraceStartView { cpu_architecture: Seq::empty(), ..m }));
    assert(s.skip(pos) =~= f1 + (f2 + f3 + f4));
    lemma_merge_opt_text::<TraceStart>(s, pos, 1, m.executable_path, f2 + f3 + f4, a0, a1, depth);
    let p1 = pos + f1.len();
    assert(s.skip(pos).len() == s.len() - pos);
    assert(s.skip(p1) =~= f2 + (f3 + f4));
    lemma_merge_args(s, p1, m.args, f3 + f4, a1, depth);
    assert(a1.args + m.args =~= m.args);
    let p2 = p1 + f2.len();
    lemma_merge_opt_text::<TraceStart>(s, p2, 3, m.operating_system, f4, a2, a3, depth);
    let p3 = p2 + f3.len();
    assert(s.skip(p3) =~= f4 + Seq::<u8>::empty());
    lemma_merge_opt_text::<TraceStart>(s, p3, 4, m.cpu_architecture, Seq::empty(), a3, m, depth);
    lemma_merge_at_end::<TraceStart>(s, p3 + f4.len(), m, depth);
}

/// The merging of a message goes on behind a field that holds bytes, with
/// the bytes in their place.
pub proof fn lemma_merge_opt_bytes<M: WireMessage>(
    s: Seq<u8>,
    pos: int,
    tag: u32,
    payload: Seq<u8>,
    rest: Seq<u8>,
    acc: M::Model,
    set: M::Model,
    depth: nat,
)
    requires
        0 <= pos <= s.len(),
        s.skip(pos) == opt_bytes(tag, payload) + rest,
        short(payload),
        1 <= tag <= MAX_TAG,
        depth >= 1,
        M::read_as(FieldKey { tag, wire: WIRE_LENGTH_DELIMITED }) == WIRE_LENGTH_DELIMITED,
        payload.len() == 0 ==> set == acc,
        forall|fv: FieldView|
            fv.key == (FieldKey { tag, wire: WIRE_LENGTH_DELIMITED }) && fv.payload == payload
                ==> #[trigger] M::put(acc, fv, depth) == Ok::<_, DecodeFault>(set),
    ensures
        s.skip(pos + opt_bytes(tag, payload).len()) == rest,
        merged::<M>(s, pos, acc, depth) == merged::<M>(
            s,
            pos + opt_bytes(tag, payload).len(),
            set,
            depth,
        ),
{
    if payload.len() != 0 {
        lemma_merge_bytes_field::<M>(s, pos, tag, payload, rest, acc, depth);
    } else {
        assert(s.skip(pos) =~= rest);
    }
}

/// What a function call does with one register.
pub open spec fn call_put_one() -> spec_fn(FunctionCallView, (Seq<char>, u64)) -> FunctionCallView {
    |m: FunctionCallView, r: (Seq<char>, u64)|
        FunctionCallView { argument_registers: m.argument_registers.push(r), ..m }
}

/// What a function return does with one register.
pub open spec fn return_put_one() -> spec_fn(
    FunctionReturnView,
    (Seq<char>, u64),
) -> FunctionReturnView {
    |m: FunctionReturnView, r: (Seq<char>, u64)|
        FunctionReturnView { return_registers: m.return_registers.push(r), ..m }
}

/// What a signal delivery does with one register.
pub open spec fn signal_put_one() -> spec_fn(
    SignalDeliveryView,
    (Seq<char>, u64),
) -> SignalDeliveryView {
    |m: SignalDeliveryView, r: (Seq<char>, u64)|
        SignalDeliveryView { registers: m.registers.push(r), ..m }
}

/// Registers put into a function call one by one stand behind those it
/// had.
pub proof fn lemma_call_put_all(acc: FunctionCallView, registers: Seq<(Seq<char>, u64)>)
    ensures
        put_all(acc, registers, call_put_one()) == (FunctionCallView {
            argument_registers: acc.argument_registers + registers,
            ..acc
        }),
    decreases registers.len(),
{
    if registers.len() == 0 {
        assert(acc.argument_registers + registers =~= acc.argument_registers);
    } else {
        let next = call_put_one()(acc, registers[0]);
        lemma_call_put_all(next, registers.skip(1));
        assert(next.argument_registers + registers.skip(1) =~= acc.argument_registers
            + registers);
    }
}

/// Registers put into a function return one by one stand behind those it
/// had.
pub proof fn lemma_return_put_all(acc: FunctionReturnView, registers: Seq<(Seq<char>, u64)>)
    ensures
        put_all(acc, registers, return_put_one()) == (FunctionReturnView {
            return_registers: acc.return_registers + registers,
            ..acc
        }),
    decreases registers.len(),
{
    if registers.len() == 0 {
        assert(acc.return_registers + registers =~= acc.return_registers);
    } else {
        let next = return_put_one()(acc, registers[0]);
        lemma_return_put_all(next, registers.skip(1));
        assert(next.return_registers + registers.skip(1) =~= acc.return_registers + registers);
    }
}

/// Registers put into a signal delivery one by one stand behind those it
/// had.
pub proof fn lemma_signal_put_all(acc: SignalDeliveryView, registers: Seq<(Seq<char>, u64)>)
    ensures
        put_all(acc, registers, signal_put_one()) == (SignalDeliveryView {
            registers: acc.registers + registers,
            ..acc
        }),
    decreases registers.len(),
{
    if registers.len() == 0 {
        assert(acc.registers + registers =~= acc.registers);
    } else {
        let next = signal_put_one()(acc, registers[0]);
        lemma_signal_put_all(next, registers.skip(1));
        assert(next.registers + registers.skip(1) =~= acc.registers + registers);
    }
}

/// What is written for a function call.
pub open spec fn call_bytes(m: FunctionCallView) -> Seq<u8> {
    opt_text(1, m.symbol) + opt_varint(2, m.address) + registers_bytes(3, m.argument_registers)
        + opt_bytes(4, m.stack_shallow_copy)
}

/// The function call can be written.
pub open spec fn call_fits(m: FunctionCallView) -> bool {
    &&& short(encode_utf8(m.symbol))
    &&& registers_fit(m.argument_registers)
    &&& short(m.stack_shallow_copy)
}

/// Appends a function call to `out`.
pub fn write_call(out: &mut Vec<u8>, m: &FunctionCall)
    ensures
        final(out)@ == old(out)@ + call_bytes(m@),
        call_fits(m@),
{
    write_opt_text(out, 1, m.symbol.as_str());
    write_opt_varint(out, 2, m.address);
    write_registers(out, 3, &m.argument_registers);
    let stack = m.stack_shallow_copy.as_slice();
    write_opt_bytes(out, 4, stack);
    assert(old(out)@ + opt_text(1, m@.symbol) + opt_varint(2, m@.address) + registers_bytes(
        3,
        m@.argument_registers,
    ) + opt_bytes(4, m@.stack_shallow_copy) =~= old(out)@ + call_bytes(m@));
}

/// A function call that is written is read back.
#[verifier::rlimit(40)]
pub proof fn lemma_call_round_trip(s: Seq<u8>, pos: int, m: FunctionCallView, depth: nat)
    requires
        0 <= pos <= s.len(),
        s.skip(pos) == call_bytes(m),
        call_fits(m),
        depth >= 2,
    ensures
        merged::<FunctionCall>(s, pos, FunctionCallView::empty(), depth) == Ok::<_, DecodeFault>(
            m,
        ),
{
    let f1 = opt_text(1, m.symbol);
    let f2 = opt_varint(2, m.address);
    let f3 = registers_bytes(3, m.argument_registers);
    let f4 = opt_bytes(4, m.stack_shallow_copy);
    let a0 = FunctionCallView::empty();
    let a1 = FunctionCallView { symbol: m.symbol, ..a0 };
    let a2 = FunctionCallView { address: m.address, ..a1 };
    let a3 = FunctionCallView { argument_registers: m.argument_registers, ..a2 };
    if m.symbol.len() == 0 {
        assert(m.symbol =~= Seq::<char>::empty());
    }
    if m.stack_shallow_copy.len() == 0 {
        assert(m.stack_shallow_copy =~= Seq::<u8>::empty());
    }
    assert(a3 == (FunctionCallView { stack_shallow_copy: Seq::empty(), ..m }));
    assert(s.skip(pos).len() == s.len() - pos);
    assert(s.skip(pos) =~= f1 + (f2 + f3 + f4));
    lemma_merge_opt_text::<FunctionCall>(s, pos, 1, m.symbol, f2 + f3 + f4, a0, a1, depth);
    let p1 = pos + f1.len();
    assert(s.skip(p1) =~= f2 + (f3 + f4));
    lemma_merge_opt_varint::<FunctionCall>(s, p1, 2, m.address, f3 + f4, a1, a2, depth);
    let p2 = p1 + f2.len();
    assert(s.skip(p2) =~= f3 + f4);
    lemma_merge_registers::<FunctionCall>(
        s,
        p2,
        m.argument_registers,
        f4,
        a2,
        depth,
        call_put_one(),
    );
    lemma_call_put_all(a2, m.argument_registers);
    assert(a2.argument_registers + m.argument_registers =~= m.argument_registers);
    let p3 = p2 + f3.len();
    assert(s.skip(p3) =~= f4 + Seq::<u8>::empty());
    lemma_merge_opt_bytes::<FunctionCall>(
        s,
        p3,
        4,
        m.stack_shallow_copy,
        Seq::empty(),
        a3,
        m,
        depth,
    );
    lemma_merge_at_end::<FunctionCall>(s, p3 + f4.len(), m, depth);
}

/// What is written for a function return.
pub open spec fn return_bytes(m: FunctionReturnView) -> Seq<u8> {
    opt_text(1, m.symbol) + opt_varint(2, m.address) + registers_bytes(3, m.return_registers)
}

/// The function return can be written.
pub open spec fn return_fits(m: FunctionReturnView) -> bool {
    &&& short(encode_utf8(m.symbol))
    &&& registers_fit(m.return_registers)
}

/// Appends a function return to `out`.
pub fn write_return(out: &mut Vec<u8>, m: &FunctionReturn)
    ensures
        final(out)@ == old(out)@ + return_bytes(m@),
        return_fits(m@),
{
    write_opt_text(out, 1, m.symbol.as_str());
    write_opt_varint(out, 2, m.address);
    write_registers(out, 3, &m.return_registers);
    assert(old(out)@ + opt_text(1, m@.symbol) + opt_varint(2, m@.address) + registers_bytes(
        3,
        m@.return_registers,
    ) =~= old(out)@ + return_bytes(m@));
}

/// A function return that is written is read back.
#[verifier::rlimit(40)]
pub proof fn lemma_return_round_trip(s: Seq<u8>, pos: int, m: FunctionReturnView, depth: nat)
    requires
        0 <= pos <= s.len(),
        s.skip(pos) == return_bytes(m),
        return_fits(m),
        depth >= 2,
    ensures
        merged::<FunctionReturn>(s, pos, FunctionReturnView::empty(), depth) == Ok::<
            _,
            DecodeFault,
        >(m),
{
    let f1 = opt_text(1, m.symbol);
    let f2 = opt_varint(2, m.address);
    let f3 = registers_bytes(3, m.return_registers);
    let a0 = FunctionReturnView::empty();
    let a1 = FunctionReturnView { symbol: m.symbol, ..a0 };
    let a2 = FunctionReturnView { address: m.address, ..a1 };
    if m.symbol.len() == 0 {
        assert(m.symbol =~= Seq::<char>::empty());
    }
    assert(s.skip(pos).len() == s.len() - pos);
    assert(s.skip(pos) =~= f1 + (f2 + f3));
    lemma_merge_opt_text::<FunctionReturn>(s, pos, 1, m.symbol, f2 + f3, a0, a1, depth);
    let p1 = pos + f1.len();
    lemma_merge_opt_varint::<FunctionReturn>(s, p1, 2, m.address, f3, a1, a2, depth);
    let p2 = p1 + f2.len();
    assert(s.skip(p2) =~= f3 + Seq::<u8>::empty());
    lemma_merge_registers::<FunctionReturn>(
        s,
        p2,
        m.return_registers,
        Seq::empty(),
        a2,
        depth,
        return_put_one(),
    );
    lemma_return_put_all(a2, m.return_registers);
    assert(a2.return_registers + m.return_registers =~= m.return_registers);
    lemma_merge_at_end::<FunctionReturn>(s, p2 + f3.len(), m, depth);
}

/// What is written for the delivery of a signal.
pub open spec fn signal_bytes(m: SignalDeliveryView) -> Seq<u8> {
    opt_varint(1, int32_bits(m.number)) + opt_text(2, m.name) + registers_bytes(3, m.registers)
}

/// The signal delivery can be written.
pub open spec fn signal_fits(m: SignalDeliveryView) -> bool {
    &&& short(encode_utf8(m.name))
    &&& registers_fit(m.registers)
}

/// Appends the delivery of a signal to `out`.
pub fn write_signal(out: &mut Vec<u8>, m: &SignalDelivery)
    ensures
        final(out)@ == old(out)@ + signal_bytes(m@),
        signal_fits(m@),
{
    write_opt_varint(out, 1, bits_of_i32(m.number));
    write_opt_text(out, 2, m.name.as_str());
    write_registers(out, 3, &m.registers);
    assert(old(out)@ + opt_varint(1, int32_bits(m@.number)) + opt_text(2, m@.name)
        + registers_bytes(3, m@.registers) =~= old(out)@ + signal_bytes(m@));
}

/// The delivery of a signal that is written is read back.
#[verifier::rlimit(40)]
pub proof fn lemma_signal_round_trip(s: Seq<u8>, pos: int, m: SignalDeliveryView, depth: nat)
    requires
        0 <= pos <= s.len(),
        s.skip(pos) == signal_bytes(m),
        signal_fits(m),
        depth >= 2,
    ensures
        merged::<SignalDelivery>(s, pos, SignalDeliveryView::empty(), depth) == Ok::<
            _,
            DecodeFault,
        >(m),
{
    lemma_signed_bits(m.number, 0);
    let f1 = opt_varint(1, int32_bits(m.number));
    let f2 = opt_text(2, m.name);
    let f3 = registers_bytes(3, m.registers);
    let a0 = SignalDeliveryView::empty();
    let a1 = SignalDeliveryView { number: m.number, ..a0 };
    let a2 = SignalDeliveryView { name: m.name, ..a1 };
    if m.name.len() == 0 {
        assert(m.name =~= Seq::<char>::empty());
    }
    assert(s.skip(pos).len() == s.len() - pos);
    assert(s.skip(pos) =~= f1 + (f2 + f3));
    lemma_merge_opt_varint::<SignalDelivery>(
        s,
        pos,
        1,
        int32_bits(m.number),
        f2 + f3,
        a0,
        a1,
        depth,
    );
    let p1 = pos + f1.len();
    lemma_merge_opt_text::<SignalDelivery>(s, p1, 2, m.name, f3, a1, a2, depth);
    let p2 = p1 + f2.len();
    assert(s.skip(p2) =~= f3 + Seq::<u8>::empty());
    lemma_merge_registers::<SignalDelivery>(
        s,
        p2,
        m.registers,
        Seq::empty(),
        a2,
        depth,
        signal_put_one(),
    );
    lemma_signal_put_all(a2, m.registers);
    assert(a2.registers + m.registers =~= m.registers);
    lemma_merge_at_end::<SignalDelivery>(s, p2 + f3.len(), m, depth);
}

/// The tag under which a payload is written.
pub open spec fn payload_tag(p: PayloadView) -> u32 {
    match p {
        PayloadView::TraceStart(_) => 10,
        PayloadView::TraceEnd(_) => 11,
        PayloadView::FunctionCall(_) => 12,
        PayloadView::FunctionReturn(_) => 13,
        PayloadView::SignalDelivery(_) => 14,
    }
}

/// What is written for a payload: the body of its message.
pub open spec fn payload_bytes(p: PayloadView) -> Seq<u8> {
    match p {
        PayloadView::TraceStart(m) => trace_start_bytes(m),
        PayloadView::TraceEnd(m) => trace_end_bytes(m),
        PayloadView::FunctionCall(m) => call_bytes(m),
        PayloadView::FunctionReturn(m) => return_bytes(m),
        PayloadView::SignalDelivery(m) => signal_bytes(m),
    }
}

/// The payload can be written: its texts, its registers and its body are
/// short enough for their lengths to be written.
pub open spec fn payload_fits(p: PayloadView) -> bool {
    &&& short(payload_bytes(p))
    &&& match p {
        PayloadView::TraceStart(m) => trace_start_fits(m),
        PayloadView::TraceEnd(_) => true,
        PayloadView::FunctionCall(m) => call_fits(m),
        PayloadView::FunctionReturn(m) => return_fits(m),
        PayloadView::SignalDelivery(m) => signal_fits(m),
    }
}

/// The field of the time of a record, if it has one.
pub open spec fn timestamp_field(timestamp: Option<Timestamp>) -> Seq<u8> {
    match timestamp {
        Some(ts) => bytes_field(3, timestamp_bytes(ts)),
        None => Seq::empty(),
    }
}

/// The field of the payload of a record, if it has one.
pub open spec fn payload_field(payload: Option<PayloadView>) -> Seq<u8> {
    match payload {
        Some(p) => bytes_field(payload_tag(p), payload_bytes(p)),
        None => Seq::empty(),
    }
}

/// What is written for a record: the body of its message. Fields stand in
/// the order of their tags, and a number that is zero, a text that is empty
/// and a part that is absent are left out.
#[verifier::opaque]
pub open spec fn record_bytes(r: RecordView) -> Seq<u8> {
    opt_varint(1, r.event_id) + opt_varint(2, int32_bits(r.thread_id)) + timestamp_field(
        r.timestamp,
    ) + payload_field(r.payload)
}

/// The record can be written.
#[verifier::opaque]
pub open spec fn record_fits(r: RecordView) -> bool {
    r.payload matches Some(p) ==> payload_fits(p)
}

/// Appends the body of a record to `out`.
pub fn write_record(out: &mut Vec<u8>, event: &Event)
    ensures
        final(out)@ == old(out)@ + record_bytes(event@),
        record_fits(event@),
{
    reveal(record_bytes);
    reveal(record_fits);
    write_opt_varint(out, 1, event.event_id);
    write_opt_varint(out, 2, bits_of_i32(event.thread_id));
    let ghost head = out@;
    match &event.timestamp {
        Some(ts) => {
            let mut body: Vec<u8> = Vec::new();
            write_timestamp(&mut body, ts);
            assert(body@ =~= timestamp_bytes(*ts));
            write_bytes_field(out, 3, body.as_slice());
        },
        None => {
            assert(head + Seq::<u8>::empty() =~= head);
        },
    }
    let ghost middle = out@;
    assert(middle == head + timestamp_field(event@.timestamp));
    match &event.payload {
        Some(payload) => {
            let mut body: Vec<u8> = Vec::new();
            let tag: u32 = match payload {
                Payload::TraceStart(m) => {
                    write_trace_start(&mut body, m);
                    10
                },
                Payload::TraceEnd(m) => {
                    write_trace_end(&mut body, m);
                    11
                },
                Payload::FunctionCall(m) => {
                    write_call(&mut body, m);
                    12
                },
                Payload::FunctionReturn(m) => {
                    write_return(&mut body, m);
                    13
                },
                Payload::SignalDelivery(m) => {
                    write_signal(&mut body, m);
                    14
                },
            };
            assert(body@ =~= payload_bytes(payload@));
            write_bytes_field(out, tag, body.as_slice());
            assert(payload_fits(payload@));
        },
        None => {
            assert(middle + Seq::<u8>::empty() =~= middle);
        },
    }
    assert(out@ == middle + payload_field(event@.payload));
    assert(old(out)@ + opt_varint(1, event@.event_id) + opt_varint(2, int32_bits(event@.thread_id))
        + timestamp_field(event@.timestamp) + payload_field(event@.payload) =~= old(out)@
        + record_bytes(event@));
}


/// A field takes no more than twenty bytes for its key and its number.
pub proof fn lemma_opt_varint_len(tag: u32, v: u64)
    ensures
        opt_varint(tag, v).len() <= 20,
{
    lemma_varint_bytes_len((tag * 8 + WIRE_VARINT) as nat);
    lemma_varint_bytes_len(v as nat);
}

/// The time of a record that is written is read back.
pub proof fn lemma_merge_timestamp_field(
    s: Seq<u8>,
    pos: int,
    timestamp: Option<Timestamp>,
    rest: Seq<u8>,
    acc: RecordView,
    depth: nat,
)
    requires
        0 <= pos <= s.len(),
        s.skip(pos) == timestamp_field(timestamp) + rest,
        acc.timestamp is None,
        depth >= 2,
    ensures
        s.skip(pos + timestamp_field(timestamp).len()) == rest,
        merged::<Event>(s, pos, acc, depth) == merged::<Event>(
            s,
            pos + timestamp_field(timestamp).len(),
            RecordView { timestamp, ..acc },
            depth,
        ),
{
    match timestamp {
        None => {
            assert(s.skip(pos) =~= rest);
        },
        Some(ts) => {
            let body = timestamp_bytes(ts);
            lemma_opt_varint_len(1, int64_bits(ts.seconds));
            lemma_opt_varint_len(2, int32_bits(ts.nanos));
            lemma_merge_bytes_field::<Event>(s, pos, 3, body, rest, acc, depth);
            assert(body.skip(0) =~= body);
            lemma_timestamp_round_trip(body, 0, ts, (depth - 1) as nat);
        },
    }
}

/// The payload of a record that is written is read back.
#[verifier::rlimit(40)]
pub proof fn lemma_merge_payload_field(
    s: Seq<u8>,
    pos: int,
    payload: Option<PayloadView>,
    rest: Seq<u8>,
    acc: RecordView,
    depth: nat,
)
    requires
        0 <= pos <= s.len(),
        s.skip(pos) == payload_field(payload) + rest,
        payload matches Some(p) ==> payload_fits(p),
        acc.payload is None,
        depth >= 3,
    ensures
        s.skip(pos + payload_field(payload).len()) == rest,
        merged::<Event>(s, pos, acc, depth) == merged::<Event>(
            s,
            pos + payload_field(payload).len(),
            RecordView { payload, ..acc },
            depth,
        ),
{
    match payload {
        None => {
            assert(s.skip(pos) =~= rest);
        },
        Some(p) => {
            let body = payload_bytes(p);
            lemma_merge_bytes_field::<Event>(s, pos, payload_tag(p), body, rest, acc, depth);
            assert(body.skip(0) =~= body);
            let inner = (depth - 1) as nat;
            match p {
                PayloadView::TraceStart(m) => {
                    lemma_trace_start_round_trip(body, 0, m, inner);
                },
                PayloadView::TraceEnd(m) => {
                    lemma_trace_end_round_trip(body, 0, m, inner);
                },
                PayloadView::FunctionCall(m) => {
                    lemma_call_round_trip(body, 0, m, inner);
                },
                PayloadView::FunctionReturn(m) => {
                    lemma_return_round_trip(body, 0, m, inner);
                },
                PayloadView::SignalDelivery(m) => {
                    lemma_signal_round_trip(body, 0, m, inner);
                },
            }
        },
    }
}

/// Round trip of records: the body that is written for a record is read
/// back as that record.
#[verifier::rlimit(40)]
pub proof fn lemma_record_round_trip(r: RecordView)
    requires
        record_fits(r),
    ensures
        record_of(record_bytes(r)) == Ok::<_, DecodeFault>(r),
{
    reveal(record_bytes);
    reveal(record_fits);
    lemma_signed_bits(r.thread_id, 0);
    let s = record_bytes(r);
    let depth = 99nat;
    let f1 = opt_varint(1, r.event_id);
    let f2 = opt_varint(2, int32_bits(r.thread_id));
    let f3 = timestamp_field(r.timestamp);
    let f4 = payload_field(r.payload);
    let a0 = RecordView::empty();
    let a1 = RecordView { event_id: r.event_id, ..a0 };
    let a2 = RecordView { thread_id: r.thread_id, ..a1 };
    let a3 = RecordView { timestamp: r.timestamp, ..a2 };
    assert(s.skip(0) =~= f1 + (f2 + f3 + f4));
    lemma_merge_opt_varint::<Event>(s, 0, 1, r.event_id, f2 + f3 + f4, a0, a1, depth);
    let p1 = f1.len() as int;
    assert(s.skip(p1) =~= f2 + (f3 + f4));
    lemma_merge_opt_varint::<Event>(s, p1, 2, int32_bits(r.thread_id), f3 + f4, a1, a2, depth);
    let p2 = p1 + f2.len();
    assert(s.skip(p2) =~= f3 + f4);
    lemma_merge_timestamp_field(s, p2, r.timestamp, f4, a2, depth);
    let p3 = p2 + f3.len();
    assert(s.skip(p3) =~= f4 + Seq::<u8>::empty());
    lemma_merge_payload_field(s, p3, r.payload, Seq::empty(), a3, depth);
    lemma_merge_at_end::<Event>(s, p3 + f4.len(), r, depth);
}

/// The body of the record as the log holds it. What is written is read back
/// as the record.
pub fn encode_record(event: &Event) -> (body: Vec<u8>)
    ensures
        body@ == record_bytes(event@),
        record_fits(event@),
        record_of(body@) == Ok::<_, DecodeFault>(event@),
{
    let mut body: Vec<u8> = Vec::new();
    write_record(&mut body, event);
    assert(Seq::<u8>::empty() + record_bytes(event@) =~= record_bytes(event@));
    proof {
        lemma_record_round_trip(event@);
    }
    body
}

/// What is written for a record in the log: the length of its body, then
/// the body.
pub open spec fn frame_bytes(r: RecordView) -> Seq<u8> {
    varint_bytes(record_bytes(r).len()) + record_bytes(r)
}

/// What is written for a log: its records, one behind the other.
pub open spec fn log_bytes(records: Seq<RecordView>) -> Seq<u8>
    decreases records.len(),
{
    if records.len() == 0 {
        Seq::empty()
    } else {
        frame_bytes(records[0]) + log_bytes(records.skip(1))
    }
}

/// Each record of the log can be written.
pub open spec fn log_fits(records: Seq<RecordView>) -> bool {
    forall|i: int|
        0 <= i < records.len() ==> record_fits(#[trigger] records[i]) && short(
            record_bytes(records[i]),
        )
}

/// The models of a list of records, in order.
pub open spec fn records_view(events: Seq<Event>) -> Seq<RecordView> {
    events.map_values(|e: Event| e@)
}

/// The log that holds the records `events`, in order. What is written is
/// read back as the events of those records.
pub fn encode_log(events: &Vec<Event>) -> (data: Vec<u8>)
    ensures
        data@ == log_bytes(records_view(events@)),
        log_fits(records_view(events@)),
        log_events(data@) == Ok::<_, DecodeFault>(
            records_view(events@).map_values(|r: RecordView| r.parsed()),
        ),
{
    let ghost all = records_view(events@);
    let mut data: Vec<u8> = Vec::new();
    let mut i: usize = 0;
    assert(all.skip(0) =~= all);
    while i < events.len()
        invariant
            i <= events.len(),
            all == records_view(events@),
            log_bytes(all) == data@ + log_bytes(all.skip(i as int)),
            forall|k: int|
                0 <= k < i ==> record_fits(#[trigger] all[k]) && short(record_bytes(all[k])),
        decreases events.len() - i,
    {
        let body = encode_record(&events[i]);
        let ghost before = data@;
        write_varint(&mut data, body.len() as u64);
        data.extend_from_slice(body.as_slice());
        proof {
            let frame = frame_bytes(all[i as int]);
            assert(data@ =~= before + frame);
            assert(all.skip(i as int)[0] == all[i as int]);
            assert(all.skip(i as int).skip(1) =~= all.skip(i + 1));
            assert(before + (frame + log_bytes(all.skip(i + 1))) =~= (before + frame) + log_bytes(
                all.skip(i + 1),
            ));
        }
        i += 1;
    }
    assert(data@ + Seq::<u8>::empty() =~= data@);
    proof {
        lemma_log_round_trip(all);
    }
    data
}

/// Bytes that are written behind their length are found behind it.
pub proof fn lemma_length_prefixed(data: Seq<u8>, pos: int, body: Seq<u8>, rest: Seq<u8>)
    requires
        0 <= pos <= data.len(),
        data.skip(pos) == varint_bytes(body.len()) + body + rest,
        short(body),
    ensures
        varint(data.skip(pos)) == Some((body.len(), varint_bytes(body.len()).len())),
        varint_bytes(body.len()).len() >= 1,
        pos + varint_bytes(body.len()).len() + body.len() + rest.len() == data.len(),
        data.subrange(
            pos + varint_bytes(body.len()).len(),
            pos + varint_bytes(body.len()).len() + body.len(),
        ) == body,
        data.skip(pos + varint_bytes(body.len()).len() + body.len()) == rest,
{
    assert(data.skip(pos).len() == data.len() - pos);
    let length = varint_bytes(body.len());
    assert(data.skip(pos) =~= length + (body + rest));
    lemma_varint_round_trip(body.len(), body + rest);
    lemma_varint_bytes_len(body.len());
    let start = pos + length.len();
    assert(data.skip(start) =~= body + rest) by {
        assert(data.skip(pos).skip(length.len() as int) =~= body + rest);
        assert(data.skip(pos).skip(length.len() as int) =~= data.skip(start));
    }
    assert(data.skip(start).len() == data.len() - start);
    assert(data.subrange(start, start + body.len()) =~= body) by {
        assert(data.skip(start).take(body.len() as int) =~= body);
        assert(data.skip(start).take(body.len() as int) =~= data.subrange(
            start,
            start + body.len(),
        ));
    }
    let next = start + body.len();
    assert(data.skip(next) =~= rest) by {
        assert(data.skip(start).skip(body.len() as int) =~= rest);
        assert(data.skip(start).skip(body.len() as int) =~= data.skip(next));
    }
}

/// A record of the log that is written is read back, and the cursor stands
/// behind it.
pub proof fn lemma_frame_round_trip(data: Seq<u8>, pos: int, r: RecordView, rest: Seq<u8>)
    requires
        0 <= pos <= data.len(),
        data.skip(pos) == frame_bytes(r) + rest,
        record_fits(r),
        short(record_bytes(r)),
    ensures
        frame_at(data, pos) == Ok::<_, DecodeFault>((r, pos + frame_bytes(r).len())),
        data.skip(pos + frame_bytes(r).len()) == rest,
        frame_bytes(r).len() >= 1,
{
    lemma_length_prefixed(data, pos, record_bytes(r), rest);
    lemma_record_round_trip(r);
}

/// The events of a log that is written, read from `pos` on where the rest
/// of the log is what is written for `records`.
pub proof fn lemma_log_from(data: Seq<u8>, pos: int, records: Seq<RecordView>)
    requires
        0 <= pos <= data.len(),
        data.skip(pos) == log_bytes(records),
        log_fits(records),
    ensures
        log_from(data, pos) == Ok::<_, DecodeFault>(
            records.map_values(|r: RecordView| r.parsed()),
        ),
    decreases records.len(),
{
    let parsed = |r: RecordView| r.parsed();
    assert(data.skip(pos).len() == data.len() - pos);
    if records.len() == 0 {
        assert(records.map_values(parsed) =~= Seq::<EventView>::empty());
    } else {
        let first = records[0];
        let others = log_bytes(records.skip(1));
        lemma_frame_round_trip(data, pos, first, others);
        let next = pos + frame_bytes(first).len();
        assert(data.skip(next).len() == data.len() - next);
        assert(log_fits(records.skip(1))) by {
            assert forall|i: int| 0 <= i < records.skip(1).len() implies record_fits(
                #[trigger] records.skip(1)[i],
            ) && short(record_bytes(records.skip(1)[i])) by {
                assert(records.skip(1)[i] == records[i + 1]);
            }
        }
        lemma_log_from(data, next, records.skip(1));
        assert(seq![first.parsed()] + records.skip(1).map_values(parsed) =~= records.map_values(
            parsed,
        ));
    }
}

/// Round trip of logs: the log that is written for records is read back as
/// the events of those records, in order.
pub proof fn lemma_log_round_trip(records: Seq<RecordView>)
    requires
        log_fits(records),
    ensures
        log_events(log_bytes(records)) == Ok::<_, DecodeFault>(
            records.map_values(|r: RecordView| r.parsed()),
        ),
{
    assert(log_bytes(records).skip(0) =~= log_bytes(records));
    lemma_log_from(log_bytes(records), 0, records);
}

} // verus!
