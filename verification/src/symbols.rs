//! Symbol resolution as the command line sees it: result codes, resolved
//! symbols, and function ids written in hexadecimal.

use crate::text::{trim, trimmed};
use vstd::prelude::*;
use vstd::string::*;

verus! {

/// How a resolution ended.
#[derive(Debug, Clone, Copy, PartialEq, Eq, Structural)]
pub enum SymbolResolveResult {
    Resolved,
    NotFound,
    NoDsym,
    Error,
    InvalidArg,
}

impl SymbolResolveResult {
    /// The result that the resolver's code `code` stands for. A code that
    /// the resolver does not define counts as an error.
    pub open spec fn of_code(code: i32) -> SymbolResolveResult {
        if code == 0 {
            SymbolResolveResult::Resolved
        } else if code == -1 {
            SymbolResolveResult::NotFound
        } else if code == -2 {
            SymbolResolveResult::NoDsym
        } else if code == -4 {
            SymbolResolveResult::InvalidArg
        } else {
            SymbolResolveResult::Error
        }
    }

    /// The code of the result.
    pub fn code(&self) -> (code: i32)
        ensures
            Self::of_code(code) == *self,
            -4 <= code <= 0,
    {
        match self {
            SymbolResolveResult::Resolved => 0,
            SymbolResolveResult::NotFound => -1,
            SymbolResolveResult::NoDsym => -2,
            SymbolResolveResult::Error => -3,
            SymbolResolveResult::InvalidArg => -4,
        }
    }
}

impl From<i32> for SymbolResolveResult {
    fn from(code: i32) -> (r: Self) {
        match code {
            0 => SymbolResolveResult::Resolved,
            -1 => SymbolResolveResult::NotFound,
            -2 => SymbolResolveResult::NoDsym,
            -3 => SymbolResolveResult::Error,
            -4 => SymbolResolveResult::InvalidArg,
            _ => SymbolResolveResult::Error,
        }
    }
}

impl vstd::std_specs::convert::FromSpecImpl<i32> for SymbolResolveResult {
    open spec fn obeys_from_spec() -> bool {
        true
    }

    open spec fn from_spec(code: i32) -> Self {
        Self::of_code(code)
    }
}

/// What is known of a resolved function.
#[derive(Debug, Clone, PartialEq)]
pub struct ResolvedSymbol {
    pub function_id: u64,
    pub name_mangled: String,
    pub name_demangled: String,
    pub module: Option<String>,
    pub source_file: Option<String>,
    pub source_line: u32,
    pub source_column: u32,
}

/// Mathematical model of a [`ResolvedSymbol`].
pub struct SymbolView {
    pub function_id: u64,
    pub name_mangled: Seq<char>,
    pub name_demangled: Seq<char>,
    pub module: Option<Seq<char>>,
    pub source_file: Option<Seq<char>>,
    pub source_line: u32,
    pub source_column: u32,
}

impl View for ResolvedSymbol {
    type V = SymbolView;

    open spec fn view(&self) -> SymbolView {
        SymbolView {
            function_id: self.function_id,
            name_mangled: self.name_mangled@,
            name_demangled: self.name_demangled@,
            module: crate::atf::event::text_of(self.module),
            source_file: crate::atf::event::text_of(self.source_file),
            source_line: self.source_line,
            source_column: self.source_column,
        }
    }
}

/// Why a text is no number.
#[derive(Debug, Clone, Copy, PartialEq, Eq, Structural)]
pub enum NumberFault {
    /// The text is empty.
    Empty,
    /// The text holds something that is no digit.
    InvalidDigit,
    /// The number does not fit 64 bits.
    Overflow,
}

impl NumberFault {
    /// The fault in words.
    pub open spec fn text(self) -> Seq<char> {
        match self {
            NumberFault::Empty => "cannot parse integer from empty string"@,
            NumberFault::InvalidDigit => "invalid digit found in string"@,
            NumberFault::Overflow => "number too large to fit in target type"@,
        }
    }

    /// The fault in words.
    pub fn as_str(&self) -> (s: &'static str)
        ensures
            s@ == self.text(),
    {
        match self {
            NumberFault::Empty => "cannot parse integer from empty string",
            NumberFault::InvalidDigit => "invalid digit found in string",
            NumberFault::Overflow => "number too large to fit in target type",
        }
    }
}

/// The value of a hexadecimal digit, in either case.
pub open spec fn hex_digit_value(c: char) -> Option<nat> {
    let u = c as u32;
    if '0' as u32 <= u <= '9' as u32 {
        Some((u - '0' as u32) as nat)
    } else if 'a' as u32 <= u <= 'f' as u32 {
        Some((u - 'a' as u32 + 10) as nat)
    } else if 'A' as u32 <= u <= 'F' as u32 {
        Some((u - 'A' as u32 + 10) as nat)
    } else {
        None
    }
}

/// The number that `so_far` becomes when the hexadecimal digits `digits`
/// are written behind it, or the first fault: a character that is no digit,
/// or a digit with which the number leaves 64 bits.
pub open spec fn hex_number(digits: Seq<char>, so_far: nat) -> Result<u64, NumberFault>
    decreases digits.len(),
{
    if digits.len() == 0 {
        Ok(so_far as u64)
    } else {
        match hex_digit_value(digits[0]) {
            None => Err(NumberFault::InvalidDigit),
            Some(d) => if so_far * 16 + d > u64::MAX {
                Err(NumberFault::Overflow)
            } else {
                hex_number(digits.skip(1), so_far * 16 + d)
            },
        }
    }
}

/// `s` without a leading `0x` or `0X`.
pub open spec fn without_hex_prefix(s: Seq<char>) -> Seq<char> {
    if s.len() >= 2 && s[0] == '0' && (s[1] == 'x' || s[1] == 'X') {
        s.skip(2)
    } else {
        s
    }
}

/// The unsigned number that the hexadecimal text `s` spells. A plus sign may
/// stand before the digits; a sign alone is no number.
pub open spec fn unsigned_hex(s: Seq<char>) -> Result<u64, NumberFault> {
    if s.len() == 0 {
        Err(NumberFault::Empty)
    } else if s.len() == 1 && (s[0] == '+' || s[0] == '-') {
        Err(NumberFault::InvalidDigit)
    } else if s[0] == '+' {
        hex_number(s.skip(1), 0)
    } else {
        hex_number(s, 0)
    }
}

/// The function id that the text `s` gives: white space around it and a
/// prefix `0x` or `0X` are passed over, the rest is a hexadecimal number.
pub open spec fn function_id_of(s: Seq<char>) -> Result<u64, NumberFault> {
    unsigned_hex(without_hex_prefix(trim(s)))
}

/// Decides [`hex_digit_value`].
fn digit_of(c: char) -> (d: Option<u64>)
    ensures
        match d {
            Some(v) => hex_digit_value(c) == Some(v as nat) && v < 16,
            None => hex_digit_value(c) is None,
        },
{
    let u = c as u32;
    if '0' as u32 <= u && u <= '9' as u32 {
        Some((u - '0' as u32) as u64)
    } else if 'a' as u32 <= u && u <= 'f' as u32 {
        Some((u - 'a' as u32 + 10) as u64)
    } else if 'A' as u32 <= u && u <= 'F' as u32 {
        Some((u - 'A' as u32 + 10) as u64)
    } else {
        None
    }
}

/// Reads a function id written in hexadecimal, with or without the prefix
/// `0x`.
pub fn parse_function_id(s: &str) -> (r: Result<u64, String>)
    ensures
        match r {
            Ok(id) => function_id_of(s@) == Ok::<_, NumberFault>(id),
            Err(message) => function_id_of(s@) matches Err(fault) && message@
                == "Invalid function_id: "@ + fault.text(),
        },
{
    match read_function_id(s) {
        Ok(id) => Ok(id),
        Err(fault) => Err(String::from_str("Invalid function_id: ").concat(fault.as_str())),
    }
}

/// Reads a function id, or says why the text is none.
pub fn read_function_id(s: &str) -> (r: Result<u64, NumberFault>)
    ensures
        r == function_id_of(s@),
{
    let text = trimmed(s);
    let len = text.unicode_len();
    let mut i: usize = 0;
    if len >= 2 && text.get_char(0) == '0' && (text.get_char(1) == 'x' || text.get_char(1) == 'X') {
        i = 2;
    }
    let ghost body = without_hex_prefix(text@);
    assert(body =~= text@.skip(i as int));
    if i == len {
        return Err(NumberFault::Empty);
    }
    let first = text.get_char(i);
    if len - i == 1 && (first == '+' || first == '-') {
        return Err(NumberFault::InvalidDigit);
    }
    if first == '+' {
        i += 1;
    }
    let ghost digits = text@.skip(i as int);
    assert(digits =~= if body[0] == '+' {
        body.skip(1)
    } else {
        body
    });
    let mut value: u64 = 0;
    assert(digits.skip(0) =~= digits);
    let ghost start = i;
    while i < len
        invariant
            start <= i <= len,
            len == text@.len(),
            digits == text@.skip(start as int),
            function_id_of(s@) == hex_number(digits, 0),
            hex_number(digits, 0) == hex_number(digits.skip(i - start), value as nat),
        decreases len - i,
    {
        let c = text.get_char(i);
        proof {
            let rest = digits.skip(i - start);
            assert(rest[0] == c);
            assert(rest.skip(1) =~= digits.skip(i + 1 - start));
        }
        match digit_of(c) {
            None => {
                return Err(NumberFault::InvalidDigit);
            },
            Some(d) => {
                if value > (u64::MAX - d) / 16 {
                    return Err(NumberFault::Overflow);
                }
                value = value * 16 + d;
            },
        }
        i += 1;
    }
    Ok(value)
}

} // verus!
