//! The wire level of the event log: variable-length integers, field keys and
//! the extent of a field's value, whatever the field means.

use crate::atf::error::DecodeFault;
use vstd::prelude::*;
use vstd::slice::*;

verus! {

/// Wire type of a variable-length integer.
pub const WIRE_VARINT: u8 = 0;

/// Wire type of eight bytes.
pub const WIRE_SIXTY_FOUR_BIT: u8 = 1;

/// Wire type of a length and that many bytes.
pub const WIRE_LENGTH_DELIMITED: u8 = 2;

/// Wire type of the key that opens a group.
pub const WIRE_START_GROUP: u8 = 3;

/// Wire type of the key that closes a group.
pub const WIRE_END_GROUP: u8 = 4;

/// Wire type of four bytes.
pub const WIRE_THIRTY_TWO_BIT: u8 = 5;

/// How deep the fields of a record may be nested, record included.
pub const RECURSION_LIMIT: u32 = 100;

/// The number of bytes of the integer that begins `s`, counted from byte `i`
/// on: one more than the position of the first byte below `0x80`, which has
/// to be among the first ten.
pub open spec fn varint_stop(s: Seq<u8>, i: nat) -> Option<nat>
    decreases 10 - i,
{
    if i >= 10 || i >= s.len() {
        None
    } else if s[i as int] < 0x80 {
        Some(i + 1)
    } else {
        varint_stop(s, i + 1)
    }
}

/// The number that the first `n` bytes of `s` spell in base 128, lowest
/// digit first; the digit of a byte is its low seven bits.
pub open spec fn varint_sum(s: Seq<u8>, n: nat) -> nat
    decreases n,
{
    if n == 0 {
        0
    } else {
        (s[0] % 128) as nat + 128 * varint_sum(s.skip(1), (n - 1) as nat)
    }
}

/// The variable-length integer that begins `s`: its value and the number of
/// bytes it takes. There is none where `s` ends before a byte below `0x80`
/// comes, where ten bytes pass without one, or where the tenth byte is above
/// one, which is more than 64 bits hold.
pub open spec fn varint(s: Seq<u8>) -> Option<(nat, nat)> {
    match varint_stop(s, 0) {
        None => None,
        Some(n) => if n == 10 && s[9] >= 2 {
            None
        } else {
            Some((varint_sum(s, n), n))
        },
    }
}

/// The integer that begins `s` takes at least one byte and no more than ten
/// or than `s` has.
pub proof fn lemma_varint_stop(s: Seq<u8>, i: nat)
    ensures
        varint_stop(s, i) matches Some(n) ==> i < n <= 10 && n <= s.len(),
    decreases 10 - i,
{
    if i < 10 && i < s.len() && s[i as int] >= 0x80 {
        lemma_varint_stop(s, i + 1);
    }
}

/// The largest number that `n` bytes spell whose last byte has the digit
/// `top`: below `128^(n-1) * (top + 1)`.
pub open spec fn varint_bound(n: nat, top: nat) -> nat
    decreases n,
{
    if n <= 1 {
        top + 1
    } else {
        128 * varint_bound((n - 1) as nat, top)
    }
}

/// The number that `n` bytes spell is below the bound that their count and
/// the digit of the last of them give.
pub proof fn lemma_varint_sum_bound(s: Seq<u8>, n: nat)
    requires
        1 <= n <= s.len(),
    ensures
        varint_sum(s, n) < varint_bound(n, (s[n - 1] % 128) as nat),
    decreases n,
{
    if n == 1 {
        assert(varint_sum(s.skip(1), 0) == 0);
    } else {
        lemma_varint_sum_bound(s.skip(1), (n - 1) as nat);
        assert(s.skip(1)[n - 2] == s[n - 1]);
    }
}

/// A variable-length integer fits 64 bits.
pub proof fn lemma_varint_fits(s: Seq<u8>)
    ensures
        varint(s) matches Some((value, n)) ==> value <= u64::MAX && 1 <= n <= 10 && n <= s.len(),
{
    lemma_varint_stop(s, 0);
    match varint(s) {
        None => {},
        Some((value, n)) => {
            lemma_varint_sum_bound(s, n);
            let top = (s[n - 1] % 128) as nat;
            reveal_with_fuel(varint_bound, 11);
            if n == 10 {
                assert(top <= 1);
                assert(varint_bound(10, top) <= 0x1_0000_0000_0000_0000);
            } else {
                assert(top <= 127);
                assert(varint_bound(n, top) <= 0x8000_0000_0000_0000);
            }
        },
    }
}

/// `prost::encoding::decode_varint` on a byte slice: the value of the
/// variable-length integer at the head of the slice and the number of bytes
/// that are left behind it, or nothing where the slice begins with no such
/// integer. Trusted, not proved: the contract restates what the decoder
/// accepts and returns.
#[verifier::external_body]
fn decode_varint(bytes: &[u8]) -> (r: Option<(u64, usize)>)
    ensures
        r is Some <==> varint(bytes@) is Some,
        r matches Some((value, left)) ==> left <= bytes@.len() && varint(bytes@) == Some(
            (value as nat, (bytes@.len() - left) as nat),
        ),
{
    let mut rest: &[u8] = bytes;
    match prost::encoding::decode_varint(&mut rest) {
        Ok(value) => Some((value, rest.len())),
        Err(_) => None,
    }
}

/// Reads the variable-length integer at `pos`: its value and the position
/// behind it.
pub fn read_varint(body: &[u8], pos: usize) -> (r: Result<(u64, usize), DecodeFault>)
    requires
        pos <= body@.len(),
    ensures
        match r {
            Ok((value, next)) => pos < next <= body@.len() && varint(body@.skip(pos as int))
                == Some((value as nat, (next - pos) as nat)),
            Err(fault) => fault == DecodeFault::InvalidVarint && varint(body@.skip(pos as int))
                is None,
        },
{
    let tail = slice_subrange(body, pos, body.len());
    assert(tail@ =~= body@.skip(pos as int));
    proof {
        lemma_varint_stop(tail@, 0);
    }
    match decode_varint(tail) {
        Some((value, left)) => Ok((value, body.len() - left)),
        None => Err(DecodeFault::InvalidVarint),
    }
}

/// The key of a field: its tag and the wire type of its value.
#[derive(Debug, Clone, Copy, PartialEq, Eq, Structural)]
pub struct FieldKey {
    pub tag: u32,
    pub wire: u8,
}

/// The key that the number `k` stands for: the wire type in its low three
/// bits, the tag above them. The number must fit 32 bits, the wire type must
/// exist, and the tag must not be zero.
pub open spec fn key_of(k: nat) -> Result<FieldKey, DecodeFault> {
    if k > u32::MAX {
        Err(DecodeFault::InvalidKey)
    } else if k % 8 > 5 {
        Err(DecodeFault::InvalidWireType)
    } else if k / 8 == 0 {
        Err(DecodeFault::InvalidTag)
    } else {
        Ok(FieldKey { tag: (k / 8) as u32, wire: (k % 8) as u8 })
    }
}

/// The key at `pos` and the position behind it.
pub open spec fn key_at(s: Seq<u8>, pos: int) -> Result<(FieldKey, int), DecodeFault> {
    match varint(s.skip(pos)) {
        None => Err(DecodeFault::InvalidVarint),
        Some((k, n)) => match key_of(k) {
            Err(fault) => Err(fault),
            Ok(key) => Ok((key, pos + n)),
        },
    }
}

/// Reads the key at `pos`.
pub fn read_key(body: &[u8], pos: usize) -> (r: Result<(FieldKey, usize), DecodeFault>)
    requires
        pos <= body@.len(),
    ensures
        match r {
            Ok((key, next)) => key_at(body@, pos as int) == Ok::<_, DecodeFault>(
                (key, next as int),
            ) && pos < next <= body@.len() && key.wire <= 5 && key.tag >= 1,
            Err(fault) => key_at(body@, pos as int) == Err::<(FieldKey, int), _>(fault),
        },
{
    let (k, next) = match read_varint(body, pos) {
        Ok(read) => read,
        Err(fault) => {
            return Err(fault);
        },
    };
    if k > u32::MAX as u64 {
        return Err(DecodeFault::InvalidKey);
    }
    let wire = k % 8;
    if wire > 5 {
        return Err(DecodeFault::InvalidWireType);
    }
    let tag = k / 8;
    if tag == 0 {
        return Err(DecodeFault::InvalidTag);
    }
    Ok((FieldKey { tag: tag as u32, wire: wire as u8 }, next))
}

/// One field of a message body as the wire shows it.
pub struct FieldView {
    /// The key of the field.
    pub key: FieldKey,
    /// The number, where the value is a variable-length integer; else zero.
    pub value: u64,
    /// The bytes of the value behind its length, where it has one, else the
    /// bytes of the whole value.
    pub payload: Seq<u8>,
    /// The position behind the field.
    pub next: int,
}

/// The value that begins at `at` under the key `key`, with `depth` levels of
/// nesting left: a variable-length integer; four or eight bytes; a length
/// and that many bytes; or a group, which runs to the key that closes it.
pub open spec fn value_at(s: Seq<u8>, at: int, key: FieldKey, depth: nat) -> Result<
    FieldView,
    DecodeFault,
>
    decreases s.len() - at, 1int,
{
    if depth == 0 {
        Err(DecodeFault::RecursionLimit)
    } else if key.wire == WIRE_VARINT {
        match varint(s.skip(at)) {
            None => Err(DecodeFault::InvalidVarint),
            Some((v, n)) => Ok(
                FieldView { key, value: v as u64, payload: Seq::empty(), next: at + n },
            ),
        }
    } else if key.wire == WIRE_SIXTY_FOUR_BIT {
        if s.len() - at < 8 {
            Err(DecodeFault::BufferUnderflow)
        } else {
            Ok(FieldView { key, value: 0, payload: s.subrange(at, at + 8), next: at + 8 })
        }
    } else if key.wire == WIRE_THIRTY_TWO_BIT {
        if s.len() - at < 4 {
            Err(DecodeFault::BufferUnderflow)
        } else {
            Ok(FieldView { key, value: 0, payload: s.subrange(at, at + 4), next: at + 4 })
        }
    } else if key.wire == WIRE_LENGTH_DELIMITED {
        match varint(s.skip(at)) {
            None => Err(DecodeFault::InvalidVarint),
            Some((len, n)) => if len > s.len() - at - n {
                Err(DecodeFault::BufferUnderflow)
            } else {
                Ok(
                    FieldView {
                        key,
                        value: 0,
                        payload: s.subrange(at + n, at + n + len),
                        next: at + n + len,
                    },
                )
            },
        }
    } else if key.wire == WIRE_START_GROUP {
        match group_end(s, at, key.tag, depth) {
            Err(fault) => Err(fault),
            Ok(end) => Ok(FieldView { key, value: 0, payload: s.subrange(at, end), next: end }),
        }
    } else {
        Err(DecodeFault::UnexpectedEndGroup)
    }
}

/// The position behind the key that closes the group of tag `tag` whose
/// fields begin at `at`. The fields of the group are one level deeper.
pub open spec fn group_end(s: Seq<u8>, at: int, tag: u32, depth: nat) -> Result<int, DecodeFault>
    decreases s.len() - at, 0int,
{
    match key_at(s, at) {
        Err(fault) => Err(fault),
        Ok((inner, behind)) => if !(at < behind <= s.len()) {
            Err(DecodeFault::InvalidVarint)
        } else if inner.wire == WIRE_END_GROUP {
            if inner.tag != tag {
                Err(DecodeFault::UnexpectedEndGroup)
            } else {
                Ok(behind)
            }
        } else {
            match value_at(s, behind, inner, (depth - 1) as nat) {
                Err(fault) => Err(fault),
                Ok(field) => if !(behind <= field.next <= s.len()) {
                    Err(DecodeFault::BufferUnderflow)
                } else {
                    group_end(s, field.next, tag, depth)
                },
            }
        },
    }
}

/// The field that begins at `pos`: its key, then its value.
pub open spec fn field_at(s: Seq<u8>, pos: int, depth: nat) -> Result<FieldView, DecodeFault> {
    match key_at(s, pos) {
        Err(fault) => Err(fault),
        Ok((key, behind)) => value_at(s, behind, key, depth),
    }
}

/// A key lies within the body and takes at least one byte.
pub proof fn lemma_key_advances(s: Seq<u8>, pos: int)
    requires
        0 <= pos <= s.len(),
    ensures
        key_at(s, pos) matches Ok((key, behind)) ==> pos < behind <= s.len() && key.wire <= 5,
{
    lemma_varint_stop(s.skip(pos), 0);
}

/// A value lies within the body, and so does a group.
pub proof fn lemma_value_advances(s: Seq<u8>, at: int, key: FieldKey, depth: nat)
    requires
        0 <= at <= s.len(),
    ensures
        value_at(s, at, key, depth) matches Ok(field) ==> at <= field.next <= s.len(),
    decreases s.len() - at, 1int,
{
    lemma_varint_stop(s.skip(at), 0);
    if depth > 0 && key.wire == WIRE_START_GROUP {
        lemma_group_advances(s, at, key.tag, depth);
    }
}

/// A group lies within the body.
pub proof fn lemma_group_advances(s: Seq<u8>, at: int, tag: u32, depth: nat)
    requires
        0 <= at <= s.len(),
    ensures
        group_end(s, at, tag, depth) matches Ok(end) ==> at < end <= s.len(),
    decreases s.len() - at, 0int,
{
    lemma_key_advances(s, at);
    match key_at(s, at) {
        Err(_) => {},
        Ok((inner, behind)) => {
            if inner.wire != WIRE_END_GROUP {
                lemma_value_advances(s, behind, inner, (depth - 1) as nat);
                match value_at(s, behind, inner, (depth - 1) as nat) {
                    Err(_) => {},
                    Ok(field) => {
                        lemma_group_advances(s, field.next, tag, depth);
                    },
                }
            }
        },
    }
}

/// A field lies within the body and takes at least one byte.
pub proof fn lemma_field_advances(s: Seq<u8>, pos: int, depth: nat)
    requires
        0 <= pos <= s.len(),
    ensures
        field_at(s, pos, depth) matches Ok(field) ==> pos < field.next <= s.len(),
{
    lemma_key_advances(s, pos);
    match key_at(s, pos) {
        Err(_) => {},
        Ok((key, behind)) => {
            lemma_value_advances(s, behind, key, depth);
        },
    }
}

/// One field of a message body, with the place of its payload in the body.
#[derive(Debug, Clone, Copy)]
pub struct Field {
    pub key: FieldKey,
    pub value: u64,
    pub start: usize,
    pub end: usize,
    pub next: usize,
}

impl Field {
    /// The field as the wire shows it in `s`.
    pub open spec fn view_in(self, s: Seq<u8>) -> FieldView {
        FieldView {
            key: self.key,
            value: self.value,
            payload: s.subrange(self.start as int, self.end as int),
            next: self.next as int,
        }
    }

    /// The payload lies in `s`, before the end of the field.
    pub open spec fn lies_in(self, s: Seq<u8>) -> bool {
        self.start <= self.end <= self.next <= s.len()
    }
}

/// Reads the value at `at` under the key `key`.
pub fn read_value(body: &[u8], at: usize, key: FieldKey, depth: u32) -> (r: Result<
    Field,
    DecodeFault,
>)
    requires
        at <= body@.len(),
        key.wire <= 5,
    ensures
        match r {
            Ok(field) => field.lies_in(body@) && at <= field.next && value_at(
                body@,
                at as int,
                key,
                depth as nat,
            ) == Ok::<_, DecodeFault>(field.view_in(body@)),
            Err(fault) => value_at(body@, at as int, key, depth as nat) == Err::<FieldView, _>(
                fault,
            ),
        },
    decreases body@.len() - at, 1int,
{
    if depth == 0 {
        return Err(DecodeFault::RecursionLimit);
    }
    if key.wire == WIRE_VARINT {
        match read_varint(body, at) {
            Err(fault) => Err(fault),
            Ok((value, next)) => {
                let field = Field { key, value, start: next, end: next, next };
                assert(field.view_in(body@).payload =~= Seq::<u8>::empty());
                Ok(field)
            },
        }
    } else if key.wire == WIRE_SIXTY_FOUR_BIT {
        if body.len() - at < 8 {
            Err(DecodeFault::BufferUnderflow)
        } else {
            Ok(Field { key, value: 0, start: at, end: at + 8, next: at + 8 })
        }
    } else if key.wire == WIRE_THIRTY_TWO_BIT {
        if body.len() - at < 4 {
            Err(DecodeFault::BufferUnderflow)
        } else {
            Ok(Field { key, value: 0, start: at, end: at + 4, next: at + 4 })
        }
    } else if key.wire == WIRE_LENGTH_DELIMITED {
        match read_varint(body, at) {
            Err(fault) => Err(fault),
            Ok((len, start)) => {
                if len > (body.len() - start) as u64 {
                    Err(DecodeFault::BufferUnderflow)
                } else {
                    let end = start + len as usize;
                    Ok(Field { key, value: 0, start, end, next: end })
                }
            },
        }
    } else if key.wire == WIRE_START_GROUP {
        match read_group_end(body, at, key.tag, depth) {
            Err(fault) => Err(fault),
            Ok(end) => Ok(Field { key, value: 0, start: at, end, next: end }),
        }
    } else {
        Err(DecodeFault::UnexpectedEndGroup)
    }
}

/// Finds the end of the group of tag `tag` whose fields begin at `at`.
pub fn read_group_end(body: &[u8], at: usize, tag: u32, depth: u32) -> (r: Result<
    usize,
    DecodeFault,
>)
    requires
        at <= body@.len(),
        depth > 0,
    ensures
        match r {
            Ok(end) => at < end <= body@.len() && group_end(body@, at as int, tag, depth as nat)
                == Ok::<_, DecodeFault>(end as int),
            Err(fault) => group_end(body@, at as int, tag, depth as nat) == Err::<int, _>(fault),
        },
    decreases body@.len() - at, 0int,
{
    let mut pos = at;
    loop
        invariant
            at <= pos <= body@.len(),
            depth > 0,
            pos == at || at < pos,
            group_end(body@, at as int, tag, depth as nat) == group_end(
                body@,
                pos as int,
                tag,
                depth as nat,
            ),
        decreases body@.len() - pos,
    {
        let (inner, behind) = match read_key(body, pos) {
            Ok(read) => read,
            Err(fault) => {
                return Err(fault);
            },
        };
        if inner.wire == WIRE_END_GROUP {
            if inner.tag != tag {
                return Err(DecodeFault::UnexpectedEndGroup);
            }
            return Ok(behind);
        }
        let field = match read_value(body, behind, inner, depth - 1) {
            Ok(field) => field,
            Err(fault) => {
                return Err(fault);
            },
        };
        pos = field.next;
    }
}

/// Reads the field at `pos`.
pub fn read_field(body: &[u8], pos: usize, depth: u32) -> (r: Result<Field, DecodeFault>)
    requires
        pos <= body@.len(),
    ensures
        match r {
            Ok(field) => field.lies_in(body@) && pos < field.next && field_at(
                body@,
                pos as int,
                depth as nat,
            ) == Ok::<_, DecodeFault>(field.view_in(body@)),
            Err(fault) => field_at(body@, pos as int, depth as nat) == Err::<FieldView, _>(fault),
        },
{
    let (key, behind) = match read_key(body, pos) {
        Ok(read) => read,
        Err(fault) => {
            return Err(fault);
        },
    };
    read_value(body, behind, key, depth)
}

} // verus!
