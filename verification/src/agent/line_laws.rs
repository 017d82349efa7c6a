//! What holds of the lines of protocol output: they cannot be forged, and nothing is lost in them.

use crate::agent::atoms::{
    atom, atom_byte, budget_text, escaped, escaped_byte, framed, framed_line, hex_digit,
    lemma_line_len, line_len, role_text, snippet_text, SNIPPET_LIMIT,
};
use crate::agent::protocol::{
    concat, fitting, outline_header, outline_line, outline_lines, outline_output, read_output,
    segment_line, segment_lines, OUTLINE_SEGMENT_SIZE,
};
use crate::agent::refs::ResolvedConversation;
use crate::agent::render::Entry;
use crate::agent::select::{
    continues, conversation_line, cut_text, message_line, read_header, selection_text,
    text_behind,
};
use crate::text::{
    decimal, joined, lemma_decimal_digits, lemma_word_len, white_space, word_len, words,
};
use vstd::prelude::*;
use vstd::utf8::{encode_utf8, encode_utf8_decode_utf8};

verus! {

/// Whether a text has no line feed.
pub open spec fn one_line(text: Seq<char>) -> bool {
    forall|i: int| 0 <= i < text.len() ==> #[trigger] text[i] != '\n'
}

/// Whether a text is a single line with its line feed.
pub open spec fn whole_line(text: Seq<char>) -> bool {
    text.len() > 0 && text.last() == '\n' && one_line(text.drop_last())
}

/// Whether a line of a text starts at a position.
pub open spec fn line_start(text: Seq<char>, p: int) -> bool {
    0 <= p < text.len() && (p == 0 || text[p - 1] == '\n')
}

/// Whether a word stands at a position of a text.
pub open spec fn stands_at(text: Seq<char>, p: int, word: Seq<char>) -> bool {
    p + word.len() <= text.len() && forall|i: int|
        0 <= i < word.len() ==> text[p + i] == #[trigger] word[i]
}

/// Whether what stands at a position opens a line of a read: the bar of a body line, or the word of
/// one of the three kinds of header.
pub open spec fn opens_line(text: Seq<char>, p: int) -> bool {
    ||| text[p] == '|'
    ||| stands_at(text, p, "protocol "@)
    ||| stands_at(text, p, "conversation "@)
    ||| stands_at(text, p, "message "@)
}

/// Whether a text consists of whole lines, each of them opened as the lines of a read are.
pub open spec fn well_framed(text: Seq<char>) -> bool {
    &&& text.len() > 0 ==> text.last() == '\n'
    &&& forall|p: int| #[trigger] line_start(text, p) ==> opens_line(text, p)
}

proof fn lemma_line_len_of(line: Seq<char>, rest: Seq<char>)
    requires
        one_line(line),
        rest.len() > 0,
        rest[0] == '\n',
    ensures
        line_len(line + rest) == line.len(),
    decreases line.len(),
{
    let whole = line + rest;
    if line.len() == 0 {
        assert(whole[0] == rest[0]);
    } else {
        assert(whole[0] == line[0]);
        lemma_line_len_of(line.skip(1), rest);
        assert(whole.skip(1) =~= line.skip(1) + rest);
    }
}

/// A framed text without its bars.
pub open spec fn unframed(text: Seq<char>) -> Seq<char>
    decreases text.len(),
{
    let n = line_len(text) as int;
    let line = if n <= 1 {
        Seq::<char>::empty()
    } else {
        text.subrange(2, n)
    };
    if n + 1 >= text.len() {
        line
    } else {
        line + seq!['\n'] + unframed(text.skip(n + 1))
    }
}

proof fn lemma_framed_line(line: Seq<char>)
    requires
        one_line(line),
    ensures
        whole_line(framed_line(line)),
        framed_line(line)[0] == '|',
        framed_line(line).len() == if line.len() == 0 {
            2nat
        } else {
            line.len() + 3
        },
        line.len() > 0 ==> framed_line(line).subrange(2, framed_line(line).len() - 1) == line,
{
    reveal_strlit("|\n");
    reveal_strlit("| ");
    reveal_strlit("\n");
    if line.len() > 0 {
        assert(framed_line(line).subrange(2, framed_line(line).len() - 1) =~= line);
        let text = framed_line(line);
        assert forall|i: int| 0 <= i < text.drop_last().len() implies #[trigger] text.drop_last()[i]
            != '\n' by {
            if i >= 2 {
                assert(text[i] == line[i - 2]);
            }
        }
    }
}

proof fn lemma_framed_not_empty(body: Seq<char>)
    ensures
        framed(body).len() >= 2,
{
    let n = line_len(body) as int;
    lemma_line_len(body);
    if n >= body.len() {
        lemma_framed_line(body);
    } else {
        lemma_framed_line(body.take(n));
    }
}

/// A framed body gives the body back: framing loses nothing, and no two bodies are framed alike.
pub proof fn law_framing_can_be_undone(body: Seq<char>)
    ensures
        unframed(framed(body)) == body,
    decreases body.len(),
{
    let n = line_len(body) as int;
    lemma_line_len(body);
    let line = body.take(n);
    lemma_framed_line(line);
    let first = framed_line(line);
    let bare = first.drop_last();
    if n >= body.len() {
        assert(line =~= body);
        assert(first =~= bare + seq!['\n']);
        lemma_line_len_of(bare, seq!['\n']);
        assert(unframed(first) =~= body);
    } else {
        let rest = body.skip(n + 1);
        let more = framed(rest);
        law_framing_can_be_undone(rest);
        lemma_framed_not_empty(rest);
        let text = first + more;
        assert(text =~= bare + (seq!['\n'] + more));
        lemma_line_len_of(bare, seq!['\n'] + more);
        assert(text.skip(bare.len() as int + 1) =~= more);
        if line.len() > 0 {
            assert(text.subrange(2, bare.len() as int) =~= first.subrange(2, first.len() - 1));
        }
        assert(body =~= line + seq!['\n'] + rest);
        assert(unframed(text) =~= body);
    }
}

proof fn lemma_well_framed_concat(a: Seq<char>, b: Seq<char>)
    requires
        well_framed(a),
        well_framed(b),
    ensures
        well_framed(a + b),
{
    let text = a + b;
    assert forall|p: int| #[trigger] line_start(text, p) implies opens_line(text, p) by {
        if p < a.len() {
            assert(line_start(a, p)) by {
                if p > 0 {
                    assert(text[p - 1] == a[p - 1]);
                }
            }
            assert(opens_line(a, p));
            lemma_opens_in(text, p, a, p);
        } else {
            assert(line_start(b, p - a.len())) by {
                if p > a.len() {
                    assert(text[p - 1] == b[p - 1 - a.len()]);
                }
            }
            assert(opens_line(b, p - a.len()));
            lemma_opens_in(text, p, b, p - a.len());
        }
    }
}

/// What opens a line of a piece opens a line of a text that holds the piece.
proof fn lemma_opens_in(text: Seq<char>, p: int, piece: Seq<char>, q: int)
    requires
        0 <= q < piece.len(),
        q <= p,
        p - q + piece.len() <= text.len(),
        forall|i: int| 0 <= i < piece.len() ==> #[trigger] piece[i] == text[p - q + i],
        opens_line(piece, q),
    ensures
        opens_line(text, p),
{
    assert(piece[q] == text[p]);
    assert forall|word: Seq<char>| #[trigger] stands_at(piece, q, word) implies stands_at(
        text,
        p,
        word,
    ) by {
        assert forall|i: int| 0 <= i < word.len() implies text[p + i] == #[trigger] word[i] by {
            assert(piece[q + i] == text[p + i]);
        }
    }
}

proof fn lemma_whole_line_well_framed(line: Seq<char>)
    requires
        whole_line(line),
        opens_line(line, 0),
    ensures
        well_framed(line),
{
    assert forall|p: int| #[trigger] line_start(line, p) implies opens_line(line, p) by {
        if p > 0 {
            assert(line.drop_last()[p - 1] == line[p - 1]);
        }
    }
}

proof fn lemma_framed_well(body: Seq<char>)
    ensures
        well_framed(framed(body)),
    decreases body.len(),
{
    let n = line_len(body) as int;
    lemma_line_len(body);
    let line = body.take(n);
    lemma_framed_line(line);
    lemma_whole_line_well_framed(framed_line(line));
    if n >= body.len() {
        assert(line =~= body);
    } else {
        lemma_framed_well(body.skip(n + 1));
        lemma_well_framed_concat(framed_line(line), framed(body.skip(n + 1)));
    }
}

proof fn lemma_one_line_concat(a: Seq<char>, b: Seq<char>)
    requires
        one_line(a),
        one_line(b),
    ensures
        one_line(a + b),
{
    assert forall|i: int| 0 <= i < (a + b).len() implies #[trigger] (a + b)[i] != '\n' by {
        if i < a.len() {
            assert((a + b)[i] == a[i]);
        } else {
            assert((a + b)[i] == b[i - a.len()]);
        }
    }
}

/// Whether a character can stand in an atom.
pub open spec fn atom_char(c: char) -> bool {
    ||| 'A' <= c <= 'Z'
    ||| 'a' <= c <= 'z'
    ||| '0' <= c <= '9'
    ||| c == '.'
    ||| c == '_'
    ||| c == '~'
    ||| c == ':'
    ||| c == '/'
    ||| c == '+'
    ||| c == '-'
    ||| c == '%'
}

proof fn lemma_escaped_chars(bytes: Seq<u8>)
    ensures
        forall|i: int| 0 <= i < escaped(bytes).len() ==> atom_char(#[trigger] escaped(bytes)[i]),
    decreases bytes.len(),
{
    if bytes.len() > 0 {
        lemma_escaped_chars(bytes.drop_last());
        let before = escaped(bytes.drop_last());
        let last = escaped_byte(bytes.last());
        assert forall|i: int| 0 <= i < escaped(bytes).len() implies atom_char(
            #[trigger] escaped(bytes)[i],
        ) by {
            if i < before.len() {
                assert(escaped(bytes)[i] == before[i]);
            } else {
                assert(escaped(bytes)[i] == last[i - before.len()]);
            }
        }
    }
}

/// An atom holds none of the characters that part the words, keys and lines of a header.
pub proof fn law_atoms_hold_no_delimiters(value: Seq<char>)
    ensures
        forall|i: int| 0 <= i < atom(value).len() ==> atom_char(#[trigger] atom(value)[i]),
        one_line(atom(value)),
{
    lemma_escaped_chars(encode_utf8(value));
}

proof fn lemma_escaped_front(bytes: Seq<u8>)
    requires
        bytes.len() > 0,
    ensures
        escaped(bytes) == escaped_byte(bytes[0]) + escaped(bytes.skip(1)),
    decreases bytes.len(),
{
    if bytes.len() == 1 {
        assert(bytes.drop_last() =~= Seq::<u8>::empty());
        assert(bytes.skip(1) =~= Seq::<u8>::empty());
        assert(escaped(bytes) =~= escaped_byte(bytes[0]) + escaped(bytes.skip(1)));
    } else {
        let rest = bytes.skip(1);
        lemma_escaped_front(bytes.drop_last());
        assert(bytes.drop_last().skip(1) =~= rest.drop_last());
        assert(escaped(bytes) =~= escaped_byte(bytes[0]) + escaped(rest));
    }
}

/// The value of a hexadecimal digit.
pub open spec fn hex_value(c: char) -> int {
    if c <= '9' {
        c as int - 48
    } else {
        c as int - 55
    }
}

/// The bytes that an escaped text stands for.
pub open spec fn unescaped(text: Seq<char>) -> Seq<u8>
    decreases text.len(),
{
    if text.len() == 0 {
        seq![]
    } else if text[0] == '%' && text.len() >= 3 {
        seq![(16 * hex_value(text[1]) + hex_value(text[2])) as u8] + unescaped(text.skip(3))
    } else {
        seq![text[0] as u8] + unescaped(text.skip(1))
    }
}

/// An escaped run of bytes gives the bytes back.
pub proof fn law_escapes_can_be_undone(bytes: Seq<u8>)
    ensures
        unescaped(escaped(bytes)) == bytes,
    decreases bytes.len(),
{
    if bytes.len() > 0 {
        let b = bytes[0];
        let text = escaped(bytes);
        lemma_escaped_front(bytes);
        law_escapes_can_be_undone(bytes.skip(1));
        if atom_byte(b) {
            assert(text[0] == b as char);
            assert(text.skip(1) =~= escaped(bytes.skip(1)));
            assert(unescaped(text) =~= bytes);
        } else {
            assert(text[0] == '%');
            assert(text[1] == hex_digit(b as int / 16));
            assert(text[2] == hex_digit(b as int % 16));
            assert(text.skip(3) =~= escaped(bytes.skip(1)));
            assert(unescaped(text) =~= bytes);
        }
    }
}

/// Two texts with the same atom are the same.
pub proof fn law_atoms_tell_texts_apart(a: Seq<char>, b: Seq<char>)
    requires
        atom(a) == atom(b),
    ensures
        a == b,
{
    law_escapes_can_be_undone(encode_utf8(a));
    law_escapes_can_be_undone(encode_utf8(b));
    encode_utf8_decode_utf8(a);
    encode_utf8_decode_utf8(b);
}

proof fn lemma_conversation_line(uuid: Seq<char>, canonical: Seq<char>, path: Seq<char>)
    ensures
        whole_line(conversation_line(uuid, canonical, path)),
        opens_line(conversation_line(uuid, canonical, path), 0),
{
    reveal_strlit("conversation uuid=");
    reveal_strlit("conversation ");
    reveal_strlit(" ref=");
    reveal_strlit(" path=");
    reveal_strlit("\n");
    law_atoms_hold_no_delimiters(uuid);
    law_atoms_hold_no_delimiters(canonical);
    law_atoms_hold_no_delimiters(path);
    let a = "conversation uuid="@ + atom(uuid);
    let b = a + " ref="@;
    let c = b + atom(canonical);
    let d = c + " path="@;
    let e = d + atom(path);
    lemma_one_line_concat("conversation uuid="@, atom(uuid));
    lemma_one_line_concat(a, " ref="@);
    lemma_one_line_concat(b, atom(canonical));
    lemma_one_line_concat(c, " path="@);
    lemma_one_line_concat(d, atom(path));
    let line = conversation_line(uuid, canonical, path);
    assert(line.drop_last() =~= e);
    assert(stands_at(line, 0, "conversation "@));
}

proof fn lemma_message_line(entry: Entry)
    ensures
        whole_line(message_line(entry)),
        opens_line(message_line(entry), 0),
{
    reveal_strlit("message m");
    reveal_strlit("message ");
    reveal_strlit(" role=");
    reveal_strlit(" line=");
    reveal_strlit("user");
    reveal_strlit("assistant");
    reveal_strlit("\n");
    lemma_decimal_digits(entry.ordinal as nat);
    lemma_decimal_digits(entry.line as nat);
    let a = "message m"@ + decimal(entry.ordinal as nat);
    let b = a + " role="@;
    let c = b + role_text(entry.role);
    let d = c + " line="@;
    let e = d + decimal(entry.line as nat);
    lemma_one_line_concat("message m"@, decimal(entry.ordinal as nat));
    lemma_one_line_concat(a, " role="@);
    lemma_one_line_concat(b, role_text(entry.role));
    lemma_one_line_concat(c, " line="@);
    lemma_one_line_concat(d, decimal(entry.line as nat));
    let line = message_line(entry);
    assert(line.drop_last() =~= e);
    assert(stands_at(line, 0, "message "@));
}

proof fn lemma_budget_text(budget: Option<usize>)
    ensures
        one_line(budget_text(budget)),
{
    reveal_strlit("none");
    if let Some(budget) = budget {
        lemma_decimal_digits(budget as nat);
    }
}

proof fn lemma_read_header(cut: Seq<char>, budget: Seq<char>)
    requires
        one_line(cut),
        one_line(budget),
    ensures
        whole_line(read_header(cut, budget)),
        opens_line(read_header(cut, budget), 0),
{
    reveal_strlit("protocol agent-read v=1 cut=");
    reveal_strlit("protocol ");
    reveal_strlit(" budget=");
    reveal_strlit("\n");
    let a = "protocol agent-read v=1 cut="@ + cut;
    let b = a + " budget="@;
    lemma_one_line_concat("protocol agent-read v=1 cut="@, cut);
    lemma_one_line_concat(a, " budget="@);
    lemma_one_line_concat(b, budget);
    let line = read_header(cut, budget);
    assert(line.drop_last() =~= b + budget);
    assert(stands_at(line, 0, "protocol "@));
}

proof fn lemma_text_behind_well(
    entries: Seq<Entry>,
    selected: Seq<usize>,
    last_ref: Option<Seq<char>>,
)
    ensures
        well_framed(text_behind(entries, selected, last_ref)),
    decreases selected.len(),
{
    if selected.len() > 0 {
        let entry = entries[selected.last() as int];
        let before = text_behind(entries, selected.drop_last(), last_ref);
        lemma_text_behind_well(entries, selected.drop_last(), last_ref);
        lemma_conversation_line(entry.uuid, entry.canonical, entry.path);
        lemma_message_line(entry);
        lemma_framed_well(entry.body);
        let opening = if continues(entries, selected, last_ref) {
            Seq::<char>::empty()
        } else {
            conversation_line(entry.uuid, entry.canonical, entry.path)
        };
        if !continues(entries, selected, last_ref) {
            lemma_whole_line_well_framed(opening);
        }
        lemma_whole_line_well_framed(message_line(entry));
        lemma_well_framed_concat(before, opening);
        lemma_well_framed_concat(before + opening, message_line(entry));
        lemma_well_framed_concat(before + opening + message_line(entry), framed(entry.body));
    }
}

/// Every line of a read opens with the bar of a body line or as one of the protocol's headers: a
/// body can hold any text, and still none of its lines passes for a header.
pub proof fn law_read_lines_are_framed(
    entries: Seq<Entry>,
    selected: Seq<usize>,
    budget: Option<usize>,
)
    ensures
        well_framed(read_output(entries, selected, budget)),
{
    let cut = atom(cut_text(entries.len(), selected));
    law_atoms_hold_no_delimiters(cut_text(entries.len(), selected));
    lemma_budget_text(budget);
    lemma_read_header(cut, budget_text(budget));
    lemma_whole_line_well_framed(read_header(cut, budget_text(budget)));
    lemma_text_behind_well(entries, selected, None);
    lemma_well_framed_concat(
        read_header(cut, budget_text(budget)),
        selection_text(entries, selected),
    );
}

/// Every line of a framed body opens with a bar.
pub proof fn law_body_lines_open_with_a_bar(body: Seq<char>, p: int)
    requires
        line_start(framed(body), p),
    ensures
        framed(body)[p] == '|',
    decreases body.len(),
{
    let n = line_len(body) as int;
    lemma_line_len(body);
    let line = body.take(n);
    lemma_framed_line(line);
    let first = framed_line(line);
    if n >= body.len() {
        assert(line =~= body);
        if p > 0 {
            assert(first.drop_last()[p - 1] == first[p - 1]);
        }
    } else {
        let more = framed(body.skip(n + 1));
        let text = first + more;
        if 0 < p < first.len() {
            assert(text[p - 1] == first.drop_last()[p - 1]);
        } else if p >= first.len() {
            assert(line_start(more, p - first.len())) by {
                if p > first.len() {
                    assert(text[p - 1] == more[p - 1 - first.len()]);
                }
            }
            law_body_lines_open_with_a_bar(body.skip(n + 1), p - first.len());
        }
    }
}

/// Whether a character is no white space, or the space itself.
pub open spec fn plain_char(c: char) -> bool {
    !white_space(c) || c == ' '
}

/// Whether a text has no white space in it but spaces.
pub open spec fn spaced(text: Seq<char>) -> bool {
    forall|i: int| 0 <= i < text.len() ==> plain_char(#[trigger] text[i])
}

proof fn lemma_spaced_concat(a: Seq<char>, b: Seq<char>)
    requires
        spaced(a),
        spaced(b),
    ensures
        spaced(a + b),
{
    assert forall|i: int| 0 <= i < (a + b).len() implies plain_char(#[trigger] (a + b)[i]) by {
        if i < a.len() {
            assert((a + b)[i] == a[i]);
        } else {
            assert((a + b)[i] == b[i - a.len()]);
        }
    }
}

proof fn lemma_words_spaced(s: Seq<char>)
    ensures
        forall|k: int| 0 <= k < words(s).len() ==> spaced(#[trigger] words(s)[k]),
    decreases s.len(),
{
    if s.len() > 0 {
        if white_space(s[0]) {
            lemma_words_spaced(s.skip(1));
            assert(words(s) == words(s.skip(1)));
        } else {
            lemma_word_len(s);
            let n = word_len(s) as int;
            lemma_words_spaced(s.skip(n));
            let rest = words(s.skip(n));
            let word = s.take(n);
            assert(words(s) == seq![word] + rest);
            assert(spaced(word)) by {
                assert forall|i: int| 0 <= i < word.len() implies plain_char(#[trigger] word[i]) by {
                    assert(word[i] == s[i]);
                }
            }
            assert forall|k: int| 0 <= k < words(s).len() implies spaced(#[trigger] words(s)[k]) by {
                if k > 0 {
                    assert(words(s)[k] == rest[k - 1]);
                } else {
                    assert(words(s)[0] == word);
                }
            }
        }
    }
}

proof fn lemma_joined_spaced(parts: Seq<Seq<char>>)
    requires
        forall|k: int| 0 <= k < parts.len() ==> spaced(#[trigger] parts[k]),
    ensures
        spaced(joined(parts, " "@)),
    decreases parts.len(),
{
    reveal_strlit(" ");
    if parts.len() > 1 {
        lemma_joined_spaced(parts.drop_last());
        lemma_spaced_concat(joined(parts.drop_last(), " "@), " "@);
        lemma_spaced_concat(joined(parts.drop_last(), " "@) + " "@, parts.last());
    }
}

/// A snippet has at most the limit's number of characters, and no white space in it but spaces: no
/// line feed, no carriage return.
pub proof fn law_snippets_are_short_and_on_one_line(body: Seq<char>)
    ensures
        snippet_text(body).len() <= SNIPPET_LIMIT,
        spaced(snippet_text(body)),
{
    lemma_words_spaced(body);
    lemma_joined_spaced(words(body));
    let normalized = joined(words(body), " "@);
    if normalized.len() > SNIPPET_LIMIT {
        let cut = normalized.take(SNIPPET_LIMIT as int);
        assert forall|i: int| 0 <= i < cut.len() implies plain_char(#[trigger] cut[i]) by {
            assert(cut[i] == normalized[i]);
        }
    }
}

/// Whether a text is a line of an outline: one line feed at its end, and no other white space in it
/// but spaces.
pub open spec fn plain_line(line: Seq<char>) -> bool {
    line.len() > 0 && line.last() == '\n' && spaced(line.drop_last())
}

proof fn lemma_digits_spaced(n: nat)
    ensures
        spaced(decimal(n)),
{
    lemma_decimal_digits(n);
}

proof fn lemma_atom_spaced(value: Seq<char>)
    ensures
        spaced(atom(value)),
{
    law_atoms_hold_no_delimiters(value);
}

proof fn lemma_outline_line(entry: Entry)
    ensures
        plain_line(outline_line(entry)),
{
    reveal_strlit("m");
    reveal_strlit(" role=");
    reveal_strlit("user");
    reveal_strlit("assistant");
    reveal_strlit(" c~");
    reveal_strlit(" ");
    reveal_strlit("\n");
    lemma_digits_spaced(entry.ordinal as nat);
    lemma_digits_spaced(entry.body.len());
    law_snippets_are_short_and_on_one_line(entry.body);
    let a = "m"@ + decimal(entry.ordinal as nat);
    let b = a + " role="@;
    let c = b + role_text(entry.role);
    let d = c + " c~"@;
    let e = d + decimal(entry.body.len());
    let f = e + " "@;
    let g = f + snippet_text(entry.body);
    lemma_spaced_concat("m"@, decimal(entry.ordinal as nat));
    lemma_spaced_concat(a, " role="@);
    lemma_spaced_concat(b, role_text(entry.role));
    lemma_spaced_concat(c, " c~"@);
    lemma_spaced_concat(d, decimal(entry.body.len()));
    lemma_spaced_concat(e, " "@);
    lemma_spaced_concat(f, snippet_text(entry.body));
    assert(outline_line(entry).drop_last() =~= g);
}

proof fn lemma_segment_line(segment: Seq<Entry>)
    ensures
        plain_line(segment_line(segment)),
{
    reveal_strlit("seg m");
    reveal_strlit("..m");
    reveal_strlit(" c~");
    reveal_strlit(" ");
    reveal_strlit(" / ");
    reveal_strlit("\n");
    let first = segment.first();
    let last = segment.last();
    let count = crate::agent::protocol::body_chars(segment);
    lemma_digits_spaced(first.ordinal as nat);
    lemma_digits_spaced(last.ordinal as nat);
    lemma_digits_spaced(count);
    law_snippets_are_short_and_on_one_line(first.body);
    law_snippets_are_short_and_on_one_line(last.body);
    let a = "seg m"@ + decimal(first.ordinal as nat);
    let b = a + "..m"@;
    let c = b + decimal(last.ordinal as nat);
    let d = c + " c~"@;
    let e = d + decimal(count);
    let f = e + " "@;
    let g = f + snippet_text(first.body);
    let h = g + " / "@;
    let i = h + snippet_text(last.body);
    lemma_spaced_concat("seg m"@, decimal(first.ordinal as nat));
    lemma_spaced_concat(a, "..m"@);
    lemma_spaced_concat(b, decimal(last.ordinal as nat));
    lemma_spaced_concat(c, " c~"@);
    lemma_spaced_concat(d, decimal(count));
    lemma_spaced_concat(e, " "@);
    lemma_spaced_concat(f, snippet_text(first.body));
    lemma_spaced_concat(g, " / "@);
    lemma_spaced_concat(h, snippet_text(last.body));
    assert(segment_line(segment).drop_last() =~= i);
}

proof fn lemma_segment_lines(entries: Seq<Entry>)
    ensures
        forall|k: int|
            0 <= k < segment_lines(entries).len() ==> plain_line(
                #[trigger] segment_lines(entries)[k],
            ),
    decreases entries.len(),
{
    if entries.len() > OUTLINE_SEGMENT_SIZE {
        let head = entries.take(OUTLINE_SEGMENT_SIZE as int);
        let tail = entries.skip(OUTLINE_SEGMENT_SIZE as int);
        lemma_segment_line(head);
        lemma_segment_lines(tail);
        assert forall|k: int| 0 <= k < segment_lines(entries).len() implies plain_line(
            #[trigger] segment_lines(entries)[k],
        ) by {
            if k > 0 {
                assert(segment_lines(entries)[k] == segment_lines(tail)[k - 1]);
            }
        }
    } else {
        lemma_segment_line(entries);
    }
}

/// Every line of an outline is one line, whatever the messages hold.
pub proof fn law_outline_lines_are_single_lines(resolved: ResolvedConversation, entries: Seq<Entry>)
    ensures
        forall|k: int|
            0 <= k < outline_lines(resolved, entries).len() ==> plain_line(
                #[trigger] outline_lines(resolved, entries)[k],
            ),
{
    let uuid = resolved.reference.uuid@;
    let canonical = resolved.reference.canonical@;
    let path = resolved.key.session_filename@;
    reveal_strlit("conversation uuid=");
    reveal_strlit(" ref=");
    reveal_strlit(" path=");
    reveal_strlit("\n");
    lemma_atom_spaced(uuid);
    lemma_atom_spaced(canonical);
    lemma_atom_spaced(path);
    let a = "conversation uuid="@ + atom(uuid);
    let b = a + " ref="@;
    let c = b + atom(canonical);
    let d = c + " path="@;
    let e = d + atom(path);
    lemma_spaced_concat("conversation uuid="@, atom(uuid));
    lemma_spaced_concat(a, " ref="@);
    lemma_spaced_concat(b, atom(canonical));
    lemma_spaced_concat(c, " path="@);
    lemma_spaced_concat(d, atom(path));
    assert(conversation_line(uuid, canonical, path).drop_last() =~= e);
    lemma_segment_lines(entries);
    let lines = outline_lines(resolved, entries);
    assert forall|k: int| 0 <= k < lines.len() implies plain_line(#[trigger] lines[k]) by {
        if k > 0 {
            if entries.len() <= crate::agent::protocol::OUTLINE_SHORT_MESSAGE_LIMIT {
                lemma_outline_line(entries[k - 1]);
                assert(lines[k] == outline_line(entries[k - 1]));
            } else {
                assert(lines[k] == segment_lines(entries)[k - 1]);
            }
        }
    }
}

proof fn lemma_concat_front(lines: Seq<Seq<char>>)
    requires
        lines.len() > 0,
    ensures
        concat(lines) == lines[0] + concat(lines.skip(1)),
    decreases lines.len(),
{
    if lines.len() == 1 {
        assert(lines.drop_last() =~= Seq::<Seq<char>>::empty());
        assert(lines.skip(1) =~= Seq::<Seq<char>>::empty());
        assert(concat(lines) =~= lines[0] + concat(lines.skip(1)));
    } else {
        lemma_concat_front(lines.drop_last());
        assert(lines.drop_last().skip(1) =~= lines.skip(1).drop_last());
        assert(concat(lines) =~= lines[0] + concat(lines.skip(1)));
    }
}

proof fn lemma_fitting(lines: Seq<Seq<char>>, room: int)
    ensures
        fitting(lines, room) <= lines.len(),
        room >= 0 ==> concat(lines.take(fitting(lines, room) as int)).len() <= room,
        room < 0 ==> fitting(lines, room) == 0,
        fitting(lines, room) < lines.len() ==> concat(
            lines.take(fitting(lines, room) as int + 1),
        ).len() > room,
    decreases lines.len(),
{
    let n = fitting(lines, room) as int;
    if lines.len() == 0 || lines[0].len() > room {
        assert(lines.take(0) =~= Seq::<Seq<char>>::empty());
        if lines.len() > 0 {
            lemma_concat_front(lines.take(1));
            assert(lines.take(1)[0] == lines[0]);
        }
    } else {
        let rest = lines.skip(1);
        lemma_fitting(rest, room - lines[0].len());
        lemma_concat_front(lines.take(n));
        assert(lines.take(n).skip(1) =~= rest.take(n - 1));
        if n < lines.len() {
            lemma_concat_front(lines.take(n + 1));
            assert(lines.take(n + 1).skip(1) =~= rest.take(n));
        }
    }
}

/// An outline stays within its budget, unless its header alone is longer. One that was cut could
/// not have shown the next line as well.
pub proof fn law_outline_stays_within_budget(lines: Seq<Seq<char>>, budget: usize)
    ensures
        ({
            let output = outline_output(lines, Some(budget));
            let header = outline_header("tail"@, decimal(budget as nat));
            let full = outline_header("none"@, decimal(budget as nat)) + concat(lines);
            let shown = fitting(lines, budget - header.len()) as int;
            &&& output.len() <= budget || output == header
            &&& full.len() > budget && shown < lines.len() ==> header.len() + concat(
                lines.take(shown + 1),
            ).len() > budget
        }),
{
    let header = outline_header("tail"@, decimal(budget as nat));
    lemma_fitting(lines, budget - header.len());
    let shown = fitting(lines, budget - header.len()) as int;
    if shown == 0 {
        assert(concat(lines.take(0)) =~= Seq::<char>::empty());
        assert(header + concat(lines.take(0)) =~= header);
    }
}

} // verus!
