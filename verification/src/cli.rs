//! What the command line decides before it starts a tool or prints: the
//! value of a build setting in the output of the build tool, the name of a
//! new session, and the lines that describe a resolved symbol.

use crate::atf::event::texts_view;
use crate::symbols::{ResolvedSymbol, SymbolView};
use crate::text::{
    decimal, hex_string, hex_text, is_white_space, push_decimal, str_eq, trim, trim_end,
    trim_start,
};
use vstd::prelude::*;
use vstd::string::*;

verus! {

/// The characters of a string.
pub fn chars_of(s: &str) -> (v: Vec<char>)
    ensures
        v@ == s@,
{
    broadcast use vstd::string::group_string_axioms;

    let mut v: Vec<char> = Vec::new();
    for c in it: s.chars()
        invariant
            it.seq() == s@,
            v@ == it.seq().take(it.index() as int),
    {
        assert(it.seq().take(it.index() + 1) =~= it.seq().take(it.index() as int).push(c));
        v.push(c);
    }
    assert(s@.take(s@.len() as int) =~= s@);
    v
}

/// Decides [`is_white_space`].
pub fn is_white(c: char) -> (r: bool)
    ensures
        r == is_white_space(c),
{
    let u = c as u32;
    (0x09 <= u && u <= 0x0D) || u == 0x20 || u == 0x85 || u == 0xA0 || u == 0x1680 || (0x2000 <= u
        && u <= 0x200A) || u == 0x2028 || u == 0x2029 || u == 0x202F || u == 0x205F || u
        == 0x3000
}

/// Where the white space that `s` begins with ends, what is left is `s`
/// without it.
pub proof fn lemma_trim_start_at(s: Seq<char>, k: int)
    requires
        0 <= k <= s.len(),
        forall|i: int| 0 <= i < k ==> is_white_space(s[i]),
        k == s.len() || !is_white_space(s[k]),
    ensures
        trim_start(s) == s.skip(k),
    decreases k,
{
    if k == 0 {
        assert(s.skip(0) =~= s);
    } else {
        assert(is_white_space(s[0]));
        assert forall|i: int| 0 <= i < k - 1 implies is_white_space(s.skip(1)[i]) by {
            assert(s.skip(1)[i] == s[i + 1]);
        }
        lemma_trim_start_at(s.skip(1), k - 1);
        assert(s.skip(1).skip(k - 1) =~= s.skip(k));
    }
}

/// Where the white space that `s` ends with begins, what stands before it
/// is `s` without it.
pub proof fn lemma_trim_end_at(s: Seq<char>, k: int)
    requires
        0 <= k <= s.len(),
        forall|i: int| k <= i < s.len() ==> is_white_space(s[i]),
        k == 0 || !is_white_space(s[k - 1]),
    ensures
        trim_end(s) == s.take(k),
    decreases s.len() - k,
{
    if k == s.len() {
        assert(s.take(k) =~= s);
    } else {
        assert(is_white_space(s.last()));
        assert forall|i: int| k <= i < s.len() - 1 implies is_white_space(s.drop_last()[i]) by {
            assert(s.drop_last()[i] == s[i]);
        }
        if k > 0 {
            assert(s.drop_last()[k - 1] == s[k - 1]);
        }
        lemma_trim_end_at(s.drop_last(), k);
        assert(s.drop_last().take(k) =~= s.take(k));
    }
}

/// Where the line that begins at `from` ends: at the next line feed, or at
/// the end of the text.
pub open spec fn line_end(s: Seq<char>, from: int) -> int
    decreases s.len() - from,
{
    if from < 0 || from >= s.len() {
        s.len() as int
    } else if s[from] == '\n' {
        from
    } else {
        line_end(s, from + 1)
    }
}

/// The value that a line gives to the setting `name`: the line, without
/// the white space around it, reads `name = value`.
pub open spec fn setting_in_line(line: Seq<char>, name: Seq<char>) -> Option<Seq<char>> {
    let stripped = trim(line);
    let prefix = name + seq![' ', '=', ' '];
    if stripped.len() >= prefix.len() && stripped.take(prefix.len() as int) == prefix {
        Some(stripped.skip(prefix.len() as int))
    } else {
        None
    }
}

/// The value of the setting `name` in the lines of `s` from `from` on: that
/// of the last line that gives it one, or `found` where none does.
pub open spec fn setting_from(
    s: Seq<char>,
    from: int,
    name: Seq<char>,
    found: Option<Seq<char>>,
) -> Option<Seq<char>>
    decreases s.len() - from,
{
    if from < 0 || from > s.len() {
        found
    } else {
        let end = line_end(s, from);
        let here = match setting_in_line(s.subrange(from, end), name) {
            Some(value) => Some(value),
            None => found,
        };
        if end >= s.len() || end < from {
            here
        } else {
            setting_from(s, end + 1, name, here)
        }
    }
}

/// The value of the build setting `name` in the output of the build tool:
/// that of the last line `name = value`.
pub open spec fn build_setting_of(settings: Seq<char>, name: Seq<char>) -> Option<Seq<char>> {
    setting_from(settings, 0, name, None)
}

/// A line ends behind where it begins and within the text, at a line feed
/// or at the end, and holds no line feed.
pub proof fn lemma_line_end(s: Seq<char>, from: int)
    requires
        0 <= from <= s.len(),
    ensures
        from <= line_end(s, from) <= s.len(),
        line_end(s, from) < s.len() ==> s[line_end(s, from)] == '\n',
        forall|i: int| from <= i < line_end(s, from) ==> s[i] != '\n',
    decreases s.len() - from,
{
    if from < s.len() && s[from] != '\n' {
        lemma_line_end(s, from + 1);
    }
}

/// Finds the value of the build setting `name` in the output of the build
/// tool.
pub fn build_setting(settings: &str, name: &str) -> (value: Option<String>)
    ensures
        match value {
            Some(text) => build_setting_of(settings@, name@) == Some(text@),
            None => build_setting_of(settings@, name@) is None,
        },
{
    let text = chars_of(settings);
    let mut prefix = chars_of(name);
    prefix.push(' ');
    prefix.push('=');
    prefix.push(' ');
    assert(prefix@ =~= name@ + seq![' ', '=', ' ']);
    let len = text.len();
    let mut found: Option<(usize, usize)> = None;
    let mut from: usize = 0;
    loop
        invariant_except_break
            build_setting_of(settings@, name@) == setting_from(
                text@,
                from as int,
                name@,
                match found {
                    Some((a, b)) => Some(text@.subrange(a as int, b as int)),
                    None => None,
                },
            ),
        invariant
            text@ == settings@,
            len == text@.len(),
            prefix@ == name@ + seq![' ', '=', ' '],
            from <= len,
            found matches Some((a, b)) ==> a <= b <= len,
        ensures
            build_setting_of(settings@, name@) == match found {
                Some((a, b)) => Some(text@.subrange(a as int, b as int)),
                None => None,
            },
        decreases len - from,
    {
        // the line
        let mut end: usize = from;
        while end < len && text[end] != '\n'
            invariant
                from <= end <= len,
                len == text@.len(),
                line_end(text@, from as int) == line_end(text@, end as int),
            decreases len - end,
        {
            end += 1;
        }
        proof {
            lemma_line_end(text@, from as int);
        }
        let ghost line = text@.subrange(from as int, end as int);
        // the line without the white space around it
        let mut a: usize = from;
        while a < end && is_white(text[a])
            invariant
                from <= a <= end <= len,
                len == text@.len(),
                forall|i: int| from <= i < a ==> is_white_space(text@[i]),
            decreases end - a,
        {
            a += 1;
        }
        let mut b: usize = end;
        while b > a && is_white(text[b - 1])
            invariant
                a <= b <= end <= len,
                len == text@.len(),
                forall|i: int| b <= i < end ==> is_white_space(text@[i]),
            decreases b,
        {
            b -= 1;
        }
        proof {
            assert forall|i: int| 0 <= i < a - from implies is_white_space(line[i]) by {
                assert(line[i] == text@[from + i]);
            }
            if a < end {
                assert(line[a - from] == text@[a as int]);
            }
            lemma_trim_start_at(line, a - from);
            let tail = line.skip(a - from);
            assert(tail =~= text@.subrange(a as int, end as int));
            assert forall|i: int| b - a <= i < tail.len() implies is_white_space(tail[i]) by {
                assert(tail[i] == text@[a + i]);
            }
            if b > a {
                assert(tail[b - a - 1] == text@[b - 1]);
            }
            lemma_trim_end_at(tail, b - a);
            assert(tail.take(b - a) =~= text@.subrange(a as int, b as int));
            assert(trim(line) == text@.subrange(a as int, b as int));
        }
        // does it begin with the name and the sign?
        let ghost stripped = text@.subrange(a as int, b as int);
        let mut same = b - a >= prefix.len();
        let mut k: usize = 0;
        while same && k < prefix.len()
            invariant
                a <= b <= len,
                len == text@.len(),
                k <= prefix@.len(),
                same ==> b - a >= prefix@.len(),
                same ==> forall|i: int| 0 <= i < k ==> text@[a + i] == prefix@[i],
                !same ==> !(stripped.len() >= prefix@.len() && stripped.take(
                    prefix@.len() as int,
                ) == prefix@),
                stripped == text@.subrange(a as int, b as int),
            decreases prefix@.len() - k + if same {
                1int
            } else {
                0int
            },
        {
            if text[a + k] != prefix[k] {
                same = false;
                proof {
                    if stripped.len() >= prefix@.len() {
                        assert(stripped.take(prefix@.len() as int)[k as int] == text@[a + k]);
                    }
                }
            } else {
                k += 1;
            }
        }
        if same {
            proof {
                assert(stripped.take(prefix@.len() as int) =~= prefix@);
                assert(stripped.skip(prefix@.len() as int) =~= text@.subrange(
                    a + prefix@.len(),
                    b as int,
                ));
            }
            found = Some((a + prefix.len(), b));
        }
        if end >= len {
            break ;
        }
        from = end + 1;
    }
    match found {
        Some((a, b)) => {
            let value = settings.substring_char(a, b);
            Some(String::from_str(value))
        },
        None => None,
    }
}

/// The name of the session that is started at `seconds` since the epoch
/// for what `label` names.
pub open spec fn session_name_text(seconds: u64, label: Seq<char>) -> Seq<char> {
    "session_"@ + decimal(seconds as nat) + "_"@ + label
}

/// The name of a new session for the binary of the name `binary`.
pub fn session_name(seconds: u64, binary: &str) -> (name: String)
    ensures
        name@ == session_name_text(seconds, binary@),
{
    let mut name = String::from_str("session_");
    push_decimal(&mut name, seconds);
    name.append("_");
    name.append(binary);
    name
}

/// The name of a new session for the process `pid`.
pub fn attached_session_name(seconds: u64, pid: u32) -> (name: String)
    ensures
        name@ == session_name_text(seconds, "pid_"@ + decimal(pid as nat)),
{
    let mut name = String::from_str("session_");
    push_decimal(&mut name, seconds);
    name.append("_");
    name.append("pid_");
    push_decimal(&mut name, pid as u64);
    assert(name@ =~= session_name_text(seconds, "pid_"@ + decimal(pid as nat)));
    name
}

/// The eight bytes of a number, highest first.
pub open spec fn be_bytes(v: u64) -> Seq<u8> {
    seq![
        (v / 0x100_0000_0000_0000) as u8,
        (v / 0x1_0000_0000_0000 % 256) as u8,
        (v / 0x100_0000_0000 % 256) as u8,
        (v / 0x1_0000_0000 % 256) as u8,
        (v / 0x100_0000 % 256) as u8,
        (v / 0x1_0000 % 256) as u8,
        (v / 0x100 % 256) as u8,
        (v % 256) as u8,
    ]
}

/// A function id as it is printed: `0x` and sixteen hexadecimal digits.
pub open spec fn function_id_text(id: u64) -> Seq<char> {
    "0x"@ + hex_text(be_bytes(id))
}

/// Writes a function id as it is printed.
pub fn function_id_string(id: u64) -> (text: String)
    ensures
        text@ == function_id_text(id),
        text@.len() == 18,
{
    proof {
        reveal_strlit("0x");
    }
    let mut bytes: Vec<u8> = Vec::new();
    bytes.push((id / 0x100_0000_0000_0000) as u8);
    bytes.push((id / 0x1_0000_0000_0000 % 256) as u8);
    bytes.push((id / 0x100_0000_0000 % 256) as u8);
    bytes.push((id / 0x1_0000_0000 % 256) as u8);
    bytes.push((id / 0x100_0000 % 256) as u8);
    bytes.push((id / 0x1_0000 % 256) as u8);
    bytes.push((id / 0x100 % 256) as u8);
    bytes.push((id % 256) as u8);
    assert(bytes@ =~= be_bytes(id));
    String::from_str("0x").concat(hex_string(bytes.as_slice()).as_str())
}

/// Where a function stands in its source: the file, then the line and the
/// column behind colons as far as they are known. A column is given with
/// its line only.
pub open spec fn source_text(file: Seq<char>, line: u32, column: u32) -> Seq<char> {
    if line == 0 {
        file
    } else if column == 0 {
        file + ":"@ + decimal(line as nat)
    } else {
        file + ":"@ + decimal(line as nat) + ":"@ + decimal(column as nat)
    }
}

/// Writes where a function stands in its source.
pub fn source_string(file: &str, line: u32, column: u32) -> (text: String)
    ensures
        text@ == source_text(file@, line, column),
{
    let mut text = String::from_str(file);
    if line > 0 {
        text.append(":");
        push_decimal(&mut text, line as u64);
        if column > 0 {
            text.append(":");
            push_decimal(&mut text, column as u64);
        }
    }
    text
}

/// The lines that describe a resolved symbol: its id and its name; its
/// mangled name where that is another; its module and its place in the
/// source where they are known.
pub open spec fn symbol_lines(symbol: SymbolView) -> Seq<Seq<char>> {
    seq!["Function ID: "@ + function_id_text(symbol.function_id), "Name:        "@
        + symbol.name_demangled] + (if symbol.name_mangled != symbol.name_demangled {
        seq!["Mangled:     "@ + symbol.name_mangled]
    } else {
        Seq::empty()
    }) + (match symbol.module {
        Some(module) => seq!["Module:      "@ + module],
        None => Seq::empty(),
    }) + (match symbol.source_file {
        Some(file) => seq!["Source:      "@ + source_text(
            file,
            symbol.source_line,
            symbol.source_column,
        )],
        None => Seq::empty(),
    })
}

/// Writes the lines that describe a resolved symbol.
pub fn describe_symbol(symbol: &ResolvedSymbol) -> (lines: Vec<String>)
    ensures
        texts_view(lines@) == symbol_lines(symbol@),
{
    let mut lines: Vec<String> = Vec::new();
    lines.push(
        String::from_str("Function ID: ").concat(
            function_id_string(symbol.function_id).as_str(),
        ),
    );
    lines.push(String::from_str("Name:        ").concat(symbol.name_demangled.as_str()));
    let ghost head = texts_view(lines@);
    assert(head =~= seq!["Function ID: "@ + function_id_text(symbol.function_id), "Name:        "@
        + symbol@.name_demangled]);
    if !str_eq(symbol.name_mangled.as_str(), symbol.name_demangled.as_str()) {
        lines.push(String::from_str("Mangled:     ").concat(symbol.name_mangled.as_str()));
    }
    let ghost second = texts_view(lines@);
    assert(second =~= head + (if symbol@.name_mangled != symbol@.name_demangled {
        seq!["Mangled:     "@ + symbol@.name_mangled]
    } else {
        Seq::empty()
    }));
    match &symbol.module {
        Some(module) => {
            lines.push(String::from_str("Module:      ").concat(module.as_str()));
        },
        None => {},
    }
    let ghost third = texts_view(lines@);
    assert(third =~= second + (match symbol@.module {
        Some(module) => seq!["Module:      "@ + module],
        None => Seq::empty(),
    }));
    match &symbol.source_file {
        Some(file) => {
            lines.push(
                String::from_str("Source:      ").concat(
                    source_string(file.as_str(), symbol.source_line, symbol.source_column).as_str(),
                ),
            );
        },
        None => {},
    }
    assert(texts_view(lines@) =~= third + (match symbol@.source_file {
        Some(file) => seq!["Source:      "@ + source_text(
            file,
            symbol@.source_line,
            symbol@.source_column,
        )],
        None => Seq::empty(),
    }));
    lines
}

} // verus!
