//! The small pieces of protocol output: atoms, framed bodies and snippets.

use crate::agent::transcript::AgentMessageRole;
use crate::text::{
    decimal, decimal_string, from_chars, join, joined, split_words, to_chars, words,
};
use vstd::prelude::*;
use vstd::string::*;
use vstd::utf8::encode_utf8;

verus! {

/// The longest snippet, in characters.
pub const SNIPPET_LIMIT: usize = 80;

/// Whether a byte stands for itself in an atom: ASCII letters and digits, and `._~:/+-`.
pub open spec fn atom_byte(b: u8) -> bool {
    ||| 65 <= b <= 90
    ||| 97 <= b <= 122
    ||| 48 <= b <= 57
    ||| b == 46
    ||| b == 95
    ||| b == 126
    ||| b == 58
    ||| b == 47
    ||| b == 43
    ||| b == 45
}

/// The upper-case hexadecimal digit for `d`.
pub open spec fn hex_digit(d: int) -> char {
    if d < 10 {
        (48 + d) as char
    } else {
        (55 + d) as char
    }
}

/// A byte in an atom: itself, or a percent sign and two hexadecimal digits.
pub open spec fn escaped_byte(b: u8) -> Seq<char> {
    if atom_byte(b) {
        seq![b as char]
    } else {
        seq!['%', hex_digit(b as int / 16), hex_digit(b as int % 16)]
    }
}

/// A run of bytes in an atom.
pub open spec fn escaped(bytes: Seq<u8>) -> Seq<char>
    decreases bytes.len(),
{
    if bytes.len() == 0 {
        seq![]
    } else {
        escaped(bytes.drop_last()) + escaped_byte(bytes.last())
    }
}

/// A text in an atom: its UTF-8 bytes, each escaped where it has to be.
pub open spec fn atom(value: Seq<char>) -> Seq<char> {
    escaped(encode_utf8(value))
}

fn hex_char(d: u8) -> (c: char)
    requires
        d < 16,
    ensures
        c == hex_digit(d as int),
{
    if d < 10 {
        (48 + d) as char
    } else {
        (55 + d) as char
    }
}

/// Escapes a text so that it can stand as one atom of a header line.
pub fn escape_atom(value: &str) -> (escaped_value: String)
    ensures
        escaped_value@ == atom(value@),
{
    let bytes = value.as_bytes();
    let mut out = String::new();
    let mut i: usize = 0;
    while i < bytes.len()
        invariant
            bytes@ == encode_utf8(value@),
            i <= bytes@.len(),
            out@ == escaped(bytes@.take(i as int)),
        decreases bytes@.len() - i,
    {
        let b: u8 = bytes[i];
        assert(bytes@.take(i + 1).drop_last() =~= bytes@.take(i as int));
        let plain = (65 <= b && b <= 90) || (97 <= b && b <= 122) || (48 <= b && b <= 57) || b == 46
            || b == 95 || b == 126 || b == 58 || b == 47 || b == 43 || b == 45;
        if plain {
            out.push(b as char);
        } else {
            out.push('%');
            out.push(hex_char(b / 16));
            out.push(hex_char(b % 16));
        }
        assert(out@ =~= escaped(bytes@.take(i + 1)));
        i = i + 1;
    }
    assert(bytes@.take(bytes@.len() as int) =~= bytes@);
    out
}

/// The atom for a role.
pub open spec fn role_text(role: AgentMessageRole) -> Seq<char> {
    match role {
        AgentMessageRole::User => "user"@,
        AgentMessageRole::Assistant => "assistant"@,
    }
}

/// The atom for a role.
pub fn role_atom(role: AgentMessageRole) -> (text: &'static str)
    ensures
        text@ == role_text(role),
{
    match role {
        AgentMessageRole::User => "user",
        AgentMessageRole::Assistant => "assistant",
    }
}

/// The atom for a budget.
pub open spec fn budget_text(budget: Option<usize>) -> Seq<char> {
    match budget {
        Some(budget) => decimal(budget as nat),
        None => "none"@,
    }
}

/// The atom for a budget.
pub fn budget_atom(budget: Option<usize>) -> (text: String)
    ensures
        text@ == budget_text(budget),
{
    match budget {
        Some(budget) => decimal_string(budget),
        None => "none".to_owned(),
    }
}

/// How many characters stand before the first line feed.
pub open spec fn line_len(s: Seq<char>) -> nat
    decreases s.len(),
{
    if s.len() == 0 || s[0] == '\n' {
        0
    } else {
        1 + line_len(s.skip(1))
    }
}

/// One line of a body, as output shows it: behind a bar, so that no line of a body can be taken for
/// a header.
pub open spec fn framed_line(line: Seq<char>) -> Seq<char> {
    if line.len() == 0 {
        "|\n"@
    } else {
        "| "@ + line + "\n"@
    }
}

/// A body, line by line.
pub open spec fn framed(body: Seq<char>) -> Seq<char>
    decreases body.len(),
{
    let n = line_len(body) as int;
    if n >= body.len() {
        framed_line(body)
    } else {
        framed_line(body.take(n)) + framed(body.skip(n + 1))
    }
}

pub proof fn lemma_line_len(s: Seq<char>)
    ensures
        line_len(s) <= s.len(),
        forall|i: int| 0 <= i < line_len(s) ==> #[trigger] s[i] != '\n',
        line_len(s) < s.len() ==> s[line_len(s) as int] == '\n',
    decreases s.len(),
{
    if s.len() > 0 && s[0] != '\n' {
        let rest = s.skip(1);
        lemma_line_len(rest);
        assert forall|i: int| 0 <= i < line_len(s) implies #[trigger] s[i] != '\n' by {
            if i > 0 {
                assert(s[i] == rest[i - 1]);
            }
        }
        if line_len(s) < s.len() {
            assert(s[line_len(s) as int] == rest[line_len(rest) as int]);
        }
    }
}

/// The end of the line that starts at `from`.
fn line_end(chars: &Vec<char>, from: usize) -> (end: usize)
    requires
        from <= chars@.len(),
    ensures
        from <= end <= chars@.len(),
        end - from == line_len(chars@.skip(from as int)),
{
    let mut end: usize = from;
    let ghost total = line_len(chars@.skip(from as int));
    while end < chars.len() && chars[end] != '\n'
        invariant
            from <= end <= chars@.len(),
            total == (end - from) + line_len(chars@.skip(end as int)),
        decreases chars@.len() - end,
    {
        assert(chars@.skip(end as int).skip(1) =~= chars@.skip(end + 1));
        assert(chars@.skip(end as int)[0] == chars@[end as int]);
        end = end + 1;
    }
    proof {
        if end < chars@.len() {
            assert(chars@.skip(end as int)[0] == chars@[end as int]);
        }
    }
    end
}

/// Appends one line of a body.
fn push_line(output: &mut String, chars: &Vec<char>, from: usize, to: usize)
    requires
        from <= to <= chars@.len(),
    ensures
        final(output)@ == old(output)@ + framed_line(chars@.subrange(from as int, to as int)),
{
    if from == to {
        output.append("|\n");
    } else {
        output.append("| ");
        output.append(from_chars(chars, from, to).as_str());
        output.append("\n");
    }
    assert(output@ =~= old(output)@ + framed_line(chars@.subrange(from as int, to as int)));
}

/// Appends a body, line by line.
pub fn push_body(output: &mut String, body: &str)
    ensures
        final(output)@ == old(output)@ + framed(body@),
{
    let chars = to_chars(body);
    let mut start: usize = 0;
    let mut end = line_end(&chars, start);
    assert(body@.skip(0) =~= body@);
    while end < chars.len()
        invariant
            chars@ == body@,
            start <= end <= chars@.len(),
            end - start == line_len(body@.skip(start as int)),
            old(output)@ + framed(body@) == output@ + framed(body@.skip(start as int)),
        decreases chars@.len() - start,
    {
        let ghost rest = body@.skip(start as int);
        let ghost before = output@;
        push_line(output, &chars, start, end);
        assert(rest.take(end - start) =~= body@.subrange(start as int, end as int));
        assert(rest.skip(end - start + 1) =~= body@.skip(end + 1));
        start = end + 1;
        end = line_end(&chars, start);
        assert(output@ + framed(body@.skip(start as int)) =~= before + framed(rest));
    }
    push_line(output, &chars, start, end);
    assert(body@.skip(start as int) =~= body@.subrange(start as int, end as int));
}

/// A body on one line, cut to the snippet limit: its words with single spaces between them.
pub open spec fn snippet_text(body: Seq<char>) -> Seq<char> {
    let normalized = joined(words(body), " "@);
    if normalized.len() <= SNIPPET_LIMIT {
        normalized
    } else {
        normalized.take(SNIPPET_LIMIT as int)
    }
}

/// A body on one line, cut to the snippet limit.
pub fn snippet(body: &str) -> (text: String)
    ensures
        text@ == snippet_text(body@),
{
    let normalized = join(&split_words(body), " ");
    if normalized.as_str().unicode_len() <= SNIPPET_LIMIT {
        normalized
    } else {
        let chars = to_chars(normalized.as_str());
        from_chars(&chars, 0, SNIPPET_LIMIT)
    }
}

} // verus!
