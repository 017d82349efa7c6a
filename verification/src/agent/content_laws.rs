//! What reads and outlines say of each message.

use crate::agent::atoms::{atom, atom_byte, framed, lemma_line_len, line_len, snippet_text};
use crate::agent::laws::law_plain_atoms_stand_for_themselves;
use crate::agent::line_laws::atom_char;
use crate::agent::protocol::{
    body_chars, concat, first_misfit, fitting, outline_header, outline_lines, outline_output,
    read_entries, read_output, request_fits, segment_line, segment_lines, ReadRequest,
};
use crate::agent::refs::{MessageRange, ResolvedConversation};
use crate::agent::render::{
    in_range, range_complaint, shown, visible_entries, Entry, ProtocolOptions,
};
use crate::agent::select::{cut_text, has_gap, ref_after, selection_text, text_behind};
use crate::agent::transcript::{AgentMessage, AgentMessagePart, AgentMessageRole};
use crate::json::{
    content_text, item_text, json_array, json_compact, json_field, json_str, opt_texts,
    tool_result, ToolContent,
};
use crate::text::{blank, decimal, joined, present, words};
use vstd::prelude::*;

verus! {

/// A snippet is the start of its body with single spaces between the words: all of it where that
/// has no more than the limit's number of characters, and else as many of the first as that.
pub proof fn law_snippets_are_the_start_of_their_bodies(body: Seq<char>)
    ensures
        ({
            let text = joined(words(body), seq![' ']);
            &&& text.len() <= 80 ==> snippet_text(body) == text
            &&& text.len() > 80 ==> snippet_text(body).len() == 80
            &&& forall|i: int|
                0 <= i < snippet_text(body).len() ==> #[trigger] snippet_text(body)[i] == text[i]
        }),
{
    reveal_strlit(" ");
    assert(" "@ =~= seq![' ']);
}

/// Letters, digits and the signs `. _ ~ : / + -` stand for themselves in an atom.
pub proof fn law_plain_characters_are_not_escaped(value: Seq<char>)
    requires
        forall|i: int| 0 <= i < value.len() ==> atom_char(#[trigger] value[i]) && value[i] != '%',
    ensures
        atom(value) == value,
{
    assert forall|i: int| 0 <= i < value.len() implies '\0' <= #[trigger] value[i] <= '\u{7f}'
        && atom_byte(value[i] as u8) by {
        assert(atom_char(value[i]));
    }
    law_plain_atoms_stand_for_themselves(value);
}

/// A line of a body stands behind a bar and a space, an empty one behind the bar alone.
pub proof fn law_lines_stand_behind_a_bar(line: Seq<char>)
    requires
        forall|i: int| 0 <= i < line.len() ==> #[trigger] line[i] != '\n',
    ensures
        framed(line) == if line.len() == 0 {
            seq!['|', '\n']
        } else {
            seq!['|', ' '] + line + seq!['\n']
        },
{
    reveal_strlit("|\n");
    reveal_strlit("| ");
    reveal_strlit("\n");
    lemma_line_len(line);
    assert(framed(line) =~= if line.len() == 0 {
        seq!['|', '\n']
    } else {
        seq!['|', ' '] + line + seq!['\n']
    });
}

/// A line feed parts what is framed before it from what is framed behind it.
pub proof fn law_line_feeds_part_lines(before: Seq<char>, behind: Seq<char>)
    ensures
        framed(before.push('\n') + behind) == framed(before) + framed(behind),
    decreases before.len(),
{
    let whole = before.push('\n') + behind;
    lemma_line_len(before);
    lemma_line_len(whole);
    let n = line_len(before) as int;
    let m = line_len(whole) as int;
    assert(n == m) by {
        if m < n {
            assert(whole[m] == before[m]);
        }
        if n < m {
            if n < before.len() {
                assert(whole[n] == before[n]);
            } else {
                assert(whole[n] == '\n');
            }
        }
    }
    assert(whole.take(n) =~= before.take(n));
    if n < before.len() {
        let rest = before.skip(n + 1);
        law_line_feeds_part_lines(rest, behind);
        assert(whole.skip(n + 1) =~= rest.push('\n') + behind);
        assert(framed(whole) =~= framed(before) + framed(behind));
    } else {
        assert(before.take(n) =~= before);
        assert(whole.skip(n + 1) =~= behind);
    }
}

/// The line that names a conversation.
pub open spec fn naming_line(entry: Entry) -> Seq<char> {
    "conversation uuid="@ + atom(entry.uuid) + " ref="@ + atom(entry.canonical) + " path="@ + atom(
        entry.path,
    ) + "\n"@
}

/// What a read says of one message: its number, who wrote it, the line of the file that it was read
/// from, and its body.
pub open spec fn told(entry: Entry) -> Seq<char> {
    "message m"@ + decimal(entry.ordinal as nat) + " role="@ + (if entry.role
        == AgentMessageRole::User {
        "user"@
    } else {
        "assistant"@
    }) + " line="@ + decimal(entry.line as nat) + "\n"@ + framed(entry.body)
}

/// A read tells of each selected message in turn. It names a conversation before the first message,
/// and before each message that is of another conversation than the one told before it.
pub proof fn law_reads_tell_each_message_in_turn(entries: Seq<Entry>, selected: Seq<usize>)
    ensures
        selected.len() == 0 ==> selection_text(entries, selected) == Seq::<char>::empty(),
        selected.len() > 0 ==> {
            let entry = entries[selected.last() as int];
            let named = selected.len() > 1 && entries[selected[selected.len() - 2] as int].canonical
                == entry.canonical;
            selection_text(entries, selected) == selection_text(entries, selected.drop_last()) + (
            if named {
                Seq::<char>::empty()
            } else {
                naming_line(entry)
            }) + told(entry)
        },
{
    if selected.len() > 0 {
        let entry = entries[selected.last() as int];
        let fewer = selected.drop_last();
        if selected.len() > 1 {
            assert(fewer.last() == selected[selected.len() - 2]);
        }
        let named = selected.len() > 1 && entries[selected[selected.len() - 2] as int].canonical
            == entry.canonical;
        assert(selection_text(entries, selected) =~= selection_text(entries, fewer) + (if named {
            Seq::<char>::empty()
        } else {
            naming_line(entry)
        }) + told(entry));
    }
}

/// What goes on from a conversation names it no more: the conversation is named before a message only
/// where the message before it, or what stands before all of them, is of another one. What is told
/// last says which conversation may go on.
pub proof fn law_conversations_that_go_on_are_not_named_again(
    entries: Seq<Entry>,
    selected: Seq<usize>,
    last_ref: Option<Seq<char>>,
)
    ensures
        selected.len() == 0 ==> text_behind(entries, selected, last_ref) == Seq::<char>::empty()
            && ref_after(entries, selected, last_ref) == last_ref,
        selected.len() > 0 ==> {
            let entry = entries[selected.last() as int];
            let before = if selected.len() > 1 {
                Some(entries[selected[selected.len() - 2] as int].canonical)
            } else {
                last_ref
            };
            &&& ref_after(entries, selected, last_ref) == Some(entry.canonical)
            &&& text_behind(entries, selected, last_ref) == text_behind(
                entries,
                selected.drop_last(),
                last_ref,
            ) + (if before == Some(entry.canonical) {
                Seq::<char>::empty()
            } else {
                naming_line(entry)
            }) + told(entry)
        },
{
    if selected.len() > 0 {
        let entry = entries[selected.last() as int];
        let fewer = selected.drop_last();
        let before = if selected.len() > 1 {
            Some(entries[selected[selected.len() - 2] as int].canonical)
        } else {
            last_ref
        };
        if selected.len() > 1 {
            assert(fewer.last() == selected[selected.len() - 2]);
        }
        assert(text_behind(entries, selected, last_ref) =~= text_behind(entries, fewer, last_ref) + (
        if before == Some(entry.canonical) {
            Seq::<char>::empty()
        } else {
            naming_line(entry)
        }) + told(entry));
    }
}

/// A read opens with where it was cut and with its budget, and goes on with what it shows.
pub proof fn law_reads_open_with_cut_and_budget(
    entries: Seq<Entry>,
    selected: Seq<usize>,
    budget: Option<usize>,
)
    ensures
        read_output(entries, selected, budget) == "protocol agent-read v=1 cut="@ + cut_text(
            entries.len(),
            selected,
        ) + " budget="@ + (match budget {
            Some(budget) => decimal(budget as nat),
            None => "none"@,
        }) + "\n"@ + selection_text(entries, selected),
{
    reveal_strlit("none");
    reveal_strlit("tail");
    reveal_strlit("head");
    reveal_strlit("focus");
    reveal_strlit("head+tail");
    reveal_strlit("focus+tail");
    reveal_strlit("head+focus");
    reveal_strlit("head+focus+tail");
    law_plain_characters_are_not_escaped(cut_text(entries.len(), selected));
}

/// The cut marker says what was left out: nothing, the start, the end, what stands between two
/// shown messages or around all of them.
pub proof fn law_cut_markers_say_what_was_left_out(total: nat, selected: Seq<usize>)
    requires
        forall|i: int| 0 <= i < selected.len() ==> (#[trigger] selected[i]) < total,
        forall|i: int, j: int|
            0 <= i < j < selected.len() ==> #[trigger] selected[i] < #[trigger] selected[j],
    ensures
        ({
            let cut = cut_text(total, selected);
            let run = selected.len() > 0 && selected.last() - selected[0] + 1 == selected.len();
            let head = selected.len() > 0 && selected[0] > 0;
            let tail = selected.len() > 0 && selected.last() + 1 < total;
            &&& cut == "none"@ <==> selected.len() == total
            &&& selected.len() == 0 && total > 0 ==> cut == "tail"@
            &&& run && !head && tail ==> cut == "tail"@
            &&& run && head && !tail ==> cut == "head"@
            &&& head && tail ==> cut == "head+focus+tail"@
            &&& selected.len() > 0 && !run && !head && !tail ==> cut == "focus"@
            &&& selected.len() > 0 && !run && head && !tail ==> cut == "head+focus"@
            &&& selected.len() > 0 && !run && !head && tail ==> cut == "focus+tail"@
        }),
{
    lemma_cut_literals();
    if selected.len() > 0 {
        lemma_gap(selected);
        assert(selected.last() < total);
        lemma_distances(selected, 0, selected.len() - 1);
    }
}

proof fn lemma_cut_literals()
    ensures
        "none"@ != "tail"@,
        "none"@ != "head"@,
        "none"@ != "focus"@,
        "none"@ != "head+tail"@,
        "none"@ != "focus+tail"@,
        "none"@ != "head+focus"@,
        "none"@ != "head+focus+tail"@,
{
    reveal_strlit("none");
    reveal_strlit("tail");
    reveal_strlit("head");
    reveal_strlit("focus");
    reveal_strlit("head+tail");
    reveal_strlit("focus+tail");
    reveal_strlit("head+focus");
    reveal_strlit("head+focus+tail");
    assert("none"@[0] != "tail"@[0]);
    assert("none"@[0] != "head"@[0]);
}

proof fn lemma_distances(selected: Seq<usize>, i: int, j: int)
    requires
        0 <= i <= j < selected.len(),
        forall|i: int, j: int|
            0 <= i < j < selected.len() ==> #[trigger] selected[i] < #[trigger] selected[j],
    ensures
        selected[j] - selected[i] >= j - i,
    decreases j - i,
{
    if i < j {
        lemma_distances(selected, i, j - 1);
        assert(selected[j - 1] < selected[j]);
    }
}

/// An ordered selection has a gap if and only if it is shorter than the way from its first to its
/// last entry.
proof fn lemma_gap(selected: Seq<usize>)
    requires
        selected.len() > 0,
        forall|i: int, j: int|
            0 <= i < j < selected.len() ==> #[trigger] selected[i] < #[trigger] selected[j],
    ensures
        has_gap(selected) <==> selected.last() - selected[0] + 1 != selected.len(),
{
    if has_gap(selected) {
        let i = choose|i: int|
            0 <= i && i + 1 < selected.len() && #[trigger] selected[i] + 1 != selected[i + 1];
        assert(selected[i] < selected[i + 1]);
        lemma_distances(selected, 0, i);
        lemma_distances(selected, i + 1, selected.len() - 1);
    } else {
        lemma_no_gap(selected, selected.len() - 1);
    }
}

proof fn lemma_no_gap(selected: Seq<usize>, k: int)
    requires
        0 <= k < selected.len(),
        !has_gap(selected),
    ensures
        selected[k] == selected[0] + k,
    decreases k,
{
    if k > 0 {
        lemma_no_gap(selected, k - 1);
        let i = k - 1;
        assert(selected[i] + 1 == selected[i + 1]);
    }
}

/// The body of a message holds the texts of its parts in order, each on a line of its own. A text
/// always counts; a call, a result and a thought do where they are asked for; a blank one never.
pub proof fn law_bodies_hold_what_is_asked_for(
    part: AgentMessagePart,
    before: Seq<AgentMessagePart>,
    options: ProtocolOptions,
)
    ensures
        shown(Seq::<AgentMessagePart>::empty(), options) == Seq::<Seq<char>>::empty(),
        ({
            let now = shown(before.push(part), options);
            let was = shown(before, options);
            match part {
                AgentMessagePart::Text { text } => now == if blank(text@) {
                    was
                } else {
                    was.push(text@)
                },
                AgentMessagePart::ToolUse { id, name, summary } => now == if options.tools && !blank(
                    summary@,
                ) {
                    was.push(summary@)
                } else {
                    was
                },
                AgentMessagePart::ToolResult { tool_use_id, content } => now == if content is Some
                    && options.tool_results && !blank(tool_result(content->0)) {
                    was.push(tool_result(content->0))
                } else {
                    was
                },
                AgentMessagePart::Thinking { thinking } => now == if options.thinking {
                    was.push("thinking: "@ + thinking@)
                } else {
                    was
                },
            }
        }),
{
    assert(before.push(part).drop_last() =~= before);
    reveal_strlit("thinking: ");
    if let AgentMessagePart::Thinking { thinking } = part {
        let text = "thinking: "@ + thinking@;
        assert(text[0] == 't');
        assert(!crate::text::white_space(text[0]));
    }
}

/// A message is shown with the texts of its parts, one to a line, if it has any and is not a
/// subagent's that nobody asked for.
pub proof fn law_messages_are_shown_with_their_bodies(
    conversation: ResolvedConversation,
    before: Seq<AgentMessage>,
    message: AgentMessage,
    options: ProtocolOptions,
)
    ensures
        visible_entries(conversation, Seq::<AgentMessage>::empty(), options) == Seq::<
            Entry,
        >::empty(),
        ({
            let body = joined(shown(message.parts@, options), seq!['\n']);
            let was = visible_entries(conversation, before, options);
            visible_entries(conversation, before.push(message), options) == if body.len() > 0 && (
            message.parent_tool_use_id is None || options.subagents) {
                was.push(
                    Entry {
                        uuid: conversation.reference.uuid@,
                        canonical: conversation.reference.canonical@,
                        full_ref: conversation.reference.full_ref@,
                        path: conversation.key.session_filename@,
                        ordinal: message.ordinal,
                        role: message.role,
                        line: message.jsonl_line,
                        body,
                    },
                )
            } else {
                was
            }
        }),
{
    assert(before.push(message).drop_last() =~= before);
    reveal_strlit("\n");
    assert("\n"@ =~= seq!['\n']);
}

/// A message is of a range if its ordinal is neither below the start nor above the end; without a
/// range every message is. The messages keep their order.
pub proof fn law_ranges_hold_their_ends(
    before: Seq<AgentMessage>,
    message: AgentMessage,
    range: Option<MessageRange>,
)
    ensures
        in_range(Seq::<AgentMessage>::empty(), range) == Seq::<AgentMessage>::empty(),
        in_range(before.push(message), range) == if range is None || (range->0.start
            <= message.ordinal && message.ordinal <= range->0.end) {
            in_range(before, range).push(message)
        } else {
            in_range(before, range)
        },
{
    assert(before.push(message).drop_last() =~= before);
}

/// A range that ends behind its transcript is refused with its ends and the number of messages.
pub proof fn law_refused_ranges_are_named(range: MessageRange, max: nat)
    ensures
        range_complaint(range, max) == "message range m"@ + decimal(range.start as nat) + "..m"@
            + decimal(range.end as nat) + " exceeds transcript length m"@ + decimal(max),
{
}

/// A read takes its requests in order, and each of them for the messages of its range. A request is
/// refused if and only if its range ends behind its transcript.
pub proof fn law_requests_are_read_in_order(
    before: Seq<ReadRequest<'_>>,
    request: ReadRequest<'_>,
    options: ProtocolOptions,
)
    ensures
        read_entries(Seq::<ReadRequest<'_>>::empty(), options) == Seq::<Entry>::empty(),
        read_entries(before.push(request), options) == read_entries(before, options)
            + visible_entries(
            *request.resolved,
            in_range(request.transcript.messages@, request.range),
            options,
        ),
        request_fits(request) <==> request.range is None || request.range->0.end
            <= request.transcript.messages@.len(),
{
    assert(before.push(request).drop_last() =~= before);
}

/// A read is refused for the first request that asks for more than its transcript has.
pub proof fn law_reads_are_refused_for_the_first_request_that_asks_too_much(
    requests: Seq<ReadRequest<'_>>,
    i: int,
)
    requires
        0 <= i < requests.len(),
    ensures
        first_misfit(requests, i) <==> {
            &&& requests[i].range is Some
            &&& requests[i].range->0.end > requests[i].transcript.messages@.len()
            &&& forall|j: int|
                0 <= j < i ==> (#[trigger] requests[j]).range is None || requests[j].range->0.end
                    <= requests[j].transcript.messages@.len()
        },
{
    assert forall|j: int| 0 <= j < requests.len() implies request_fits(#[trigger] requests[j]) == (
    requests[j].range is None || requests[j].range->0.end
        <= requests[j].transcript.messages@.len()) by {}
}

/// The text of a tool's content is the text itself, or the texts of its items, one to a line.
pub proof fn law_contents_are_shown_as_text(content: ToolContent)
    ensures
        content is Text ==> content_text(content) == content->Text_0@,
        content is Other ==> content_text(content) == content->Other_0@,
        content is Items ==> content_text(content) == joined(
            present(
                Seq::new(
                    content->Items_0@.len(),
                    |i: int|
                        if content->Items_0@[i] is Some {
                            Some(content->Items_0@[i]->0@)
                        } else {
                            None
                        },
                ),
            ),
            seq!['\n'],
        ),
{
    reveal_strlit("\n");
    assert("\n"@ =~= seq!['\n']);
    if content is Items {
        assert(opt_texts(content->Items_0@) =~= Seq::new(
            content->Items_0@.len(),
            |i: int|
                if content->Items_0@[i] is Some {
                    Some(content->Items_0@[i]->0@)
                } else {
                    None
                },
        ));
    }
}

/// The text of a result that is a string is the string. The text of a list is the texts of its
/// items, one to a line: of a string the string, of an object its field `text` where that is a
/// string, and nothing of any other. Anything else is shown as JSON.
pub proof fn law_results_are_shown_as_text(content: serde_json::Value)
    ensures
        json_str(content) is Some ==> tool_result(content) == json_str(content)->0,
        json_str(content) is None && json_array(content) is None ==> tool_result(content)
            == json_compact(content),
        json_str(content) is None && json_array(content) is Some ==> {
            let items = json_array(content)->0;
            let texts = Seq::new(
                items.len(),
                |i: int|
                    if json_str(items[i]) is Some {
                        json_str(items[i])
                    } else if json_field(items[i], "text"@) is Some {
                        json_str(json_field(items[i], "text"@)->0)
                    } else {
                        None
                    },
            );
            tool_result(content) == joined(present(texts), seq!['\n'])
        },
{
    reveal_strlit("\n");
    assert("\n"@ =~= seq!['\n']);
    if json_str(content) is None && json_array(content) is Some {
        let items = json_array(content)->0;
        assert(Seq::new(items.len(), |i: int| item_text(items[i])) =~= Seq::new(
            items.len(),
            |i: int|
                if json_str(items[i]) is Some {
                    json_str(items[i])
                } else if json_field(items[i], "text"@) is Some {
                    json_str(json_field(items[i], "text"@)->0)
                } else {
                    None
                },
        ));
    }
}

/// An outline names its conversation and then has a line for each of up to twenty messages: its
/// number, who wrote it, how long it is and how it starts.
pub proof fn law_short_outlines_have_a_line_for_each_message(
    resolved: ResolvedConversation,
    entries: Seq<Entry>,
    k: int,
)
    requires
        entries.len() <= 20,
        0 <= k < entries.len(),
    ensures
        outline_lines(resolved, entries).len() == 1 + entries.len(),
        outline_lines(resolved, entries)[1 + k] == "m"@ + decimal(entries[k].ordinal as nat)
            + " role="@ + (if entries[k].role == AgentMessageRole::User {
            "user"@
        } else {
            "assistant"@
        }) + " c~"@ + decimal(entries[k].body.len()) + " "@ + snippet_text(entries[k].body)
            + "\n"@,
{
}

/// The first line of an outline, behind its header, names the conversation.
pub proof fn law_outlines_name_their_conversation(
    resolved: ResolvedConversation,
    entries: Seq<Entry>,
)
    ensures
        outline_lines(resolved, entries).len() > 0,
        outline_lines(resolved, entries)[0] == "conversation uuid="@ + atom(
            resolved.reference.uuid@,
        ) + " ref="@ + atom(resolved.reference.canonical@) + " path="@ + atom(
            resolved.key.session_filename@,
        ) + "\n"@,
        entries.len() == 0 ==> outline_lines(resolved, entries).len() == 1,
{
}

proof fn lemma_segment(entries: Seq<Entry>, k: int)
    requires
        0 <= 10 * k < entries.len(),
    ensures
        segment_lines(entries).len() == (entries.len() + 9) / 10,
        segment_lines(entries)[k] == segment_line(
            entries.subrange(
                10 * k,
                if 10 * k + 10 <= entries.len() {
                    10 * k + 10
                } else {
                    entries.len() as int
                },
            ),
        ),
    decreases entries.len(),
{
    let to = if 10 * k + 10 <= entries.len() {
        10 * k + 10
    } else {
        entries.len() as int
    };
    if entries.len() > 10 {
        let rest = entries.skip(10);
        lemma_segment(rest, 0);
        if k > 0 {
            lemma_segment(rest, k - 1);
            assert(rest.subrange(10 * (k - 1), to - 10) =~= entries.subrange(10 * k, to));
        } else {
            assert(entries.take(10) =~= entries.subrange(0, 10));
        }
    } else {
        assert(entries.subrange(0, to) =~= entries);
    }
}

/// How many characters the bodies of some entries have, one by one.
proof fn lemma_body_chars(entries: Seq<Entry>)
    ensures
        body_chars(entries) == entries.map_values(|entry: Entry| entry.body.len() as int).fold_left(
            0int,
            |sum: int, n: int| sum + n,
        ),
    decreases entries.len(),
{
    let lengths = entries.map_values(|entry: Entry| entry.body.len() as int);
    let add_up = |sum: int, n: int| sum + n;
    if entries.len() > 0 {
        lemma_body_chars(entries.drop_last());
        assert(lengths.drop_last() =~= entries.drop_last().map_values(
            |entry: Entry| entry.body.len() as int,
        ));
        assert(lengths.last() == entries.last().body.len());
    }
}

/// An outline of more than twenty messages has a line for each ten of them, in order, and one for
/// what is left: the numbers of the first and the last, how long all of them are together, and how
/// the first and the last start.
pub proof fn law_long_outlines_have_a_line_for_each_ten_messages(
    resolved: ResolvedConversation,
    entries: Seq<Entry>,
    k: int,
)
    requires
        entries.len() > 20,
        0 <= 10 * k < entries.len(),
    ensures
        outline_lines(resolved, entries).len() == 1 + (entries.len() + 9) / 10,
        ({
            let end = if 10 * k + 10 <= entries.len() {
                10 * k + 10
            } else {
                entries.len() as int
            };
            let length = entries.subrange(10 * k, end).map_values(
                |entry: Entry| entry.body.len() as int,
            ).fold_left(0int, |sum: int, n: int| sum + n);
            &&& length >= 0
            &&& outline_lines(resolved, entries)[1 + k] == "seg m"@ + decimal(
                entries[10 * k].ordinal as nat,
            ) + "..m"@ + decimal(entries[end - 1].ordinal as nat) + " c~"@ + decimal(length as nat)
                + " "@ + snippet_text(entries[10 * k].body) + " / "@ + snippet_text(
                entries[end - 1].body,
            ) + "\n"@
        }),
{
    lemma_segment(entries, k);
    let end = if 10 * k + 10 <= entries.len() {
        10 * k + 10
    } else {
        entries.len() as int
    };
    lemma_body_chars(entries.subrange(10 * k, end));
}

proof fn lemma_concat_more(lines: Seq<Seq<char>>, m: int, n: int)
    requires
        0 <= m <= n <= lines.len(),
    ensures
        concat(lines.take(m)).len() <= concat(lines.take(n)).len(),
        concat(lines.take(m)) == concat(lines.take(n)).take(concat(lines.take(m)).len() as int),
    decreases n - m,
{
    if m < n {
        lemma_concat_more(lines, m, n - 1);
        assert(lines.take(n).drop_last() =~= lines.take(n - 1));
        assert(concat(lines.take(m)) =~= concat(lines.take(n)).take(
            concat(lines.take(m)).len() as int,
        ));
    } else {
        assert(concat(lines.take(m)) =~= concat(lines.take(n)).take(
            concat(lines.take(m)).len() as int,
        ));
    }
}

proof fn lemma_concat_one_more(lines: Seq<Seq<char>>, n: int)
    requires
        0 <= n < lines.len(),
    ensures
        concat(lines.take(n + 1)) == concat(lines.take(n)) + lines[n],
{
    assert(lines.take(n + 1).drop_last() =~= lines.take(n));
}

proof fn lemma_fitting_from(lines: Seq<Seq<char>>, from: int, room: int)
    requires
        0 <= from <= lines.len(),
        concat(lines.take(from)).len() <= room || from == 0,
    ensures
        ({
            let n = from + fitting(lines.skip(from), room - concat(lines.take(from)).len());
            &&& from <= n <= lines.len()
            &&& n > 0 ==> concat(lines.take(n)).len() <= room
            &&& n < lines.len() ==> concat(lines.take(n + 1)).len() > room
        }),
    decreases lines.len() - from,
{
    let rest = lines.skip(from);
    let left = room - concat(lines.take(from)).len();
    assert(lines.take(0) =~= Seq::<Seq<char>>::empty());
    if from < lines.len() {
        lemma_concat_one_more(lines, from);
        assert(rest[0] == lines[from]);
        if rest[0].len() <= left {
            lemma_fitting_from(lines, from + 1, room);
            assert(rest.skip(1) =~= lines.skip(from + 1));
        }
    }
}

/// Lines stand one after the other, with nothing between them.
pub proof fn law_lines_stand_one_after_the_other(lines: Seq<Seq<char>>, line: Seq<char>)
    ensures
        concat(Seq::<Seq<char>>::empty()) == Seq::<char>::empty(),
        concat(lines.push(line)) == concat(lines) + line,
{
    assert(lines.push(line).drop_last() =~= lines);
}

/// An outline that fits its budget, or has none, shows all of its lines and says that nothing was
/// cut. One that does not fit says that its end was cut and shows its first lines: as many as fit,
/// and none of the others.
pub proof fn law_outlines_show_their_first_lines(
    lines: Seq<Seq<char>>,
    budget: Option<usize>,
) -> (n: int)
    ensures
        0 <= n <= lines.len(),
        ({
            let number = match budget {
                Some(budget) => decimal(budget as nat),
                None => "none"@,
            };
            let full = "protocol agent-outline v=1 cut=none budget="@ + number + "\n"@ + concat(
                lines,
            );
            let header = "protocol agent-outline v=1 cut=tail budget="@ + number + "\n"@;
            if budget is None || full.len() <= budget->0 {
                outline_output(lines, budget) == full
            } else {
                &&& outline_output(lines, budget) == header + concat(lines.take(n))
                &&& n > 0 ==> outline_output(lines, budget).len() <= budget->0
                &&& forall|m: int|
                    n < m <= lines.len() ==> (header + concat(#[trigger] lines.take(m))).len()
                        > budget->0
            }
        }),
{
    reveal_strlit("protocol agent-outline v=1 cut=none budget=");
    reveal_strlit("protocol agent-outline v=1 cut=tail budget=");
    reveal_strlit("protocol agent-outline v=1 cut=");
    reveal_strlit("none");
    reveal_strlit("tail");
    reveal_strlit(" budget=");
    let number = match budget {
        Some(budget) => decimal(budget as nat),
        None => "none"@,
    };
    assert(outline_header("none"@, number) =~= "protocol agent-outline v=1 cut=none budget="@
        + number + "\n"@);
    assert(outline_header("tail"@, number) =~= "protocol agent-outline v=1 cut=tail budget="@
        + number + "\n"@);
    match budget {
        Some(budget) => {
            let header = outline_header("tail"@, number);
            let n = fitting(lines, budget - header.len()) as int;
            assert(lines.skip(0) =~= lines);
            assert(lines.take(0) =~= Seq::<Seq<char>>::empty());
            lemma_fitting_from(lines, 0, budget - header.len());
            assert forall|m: int| n < m <= lines.len() implies (header + concat(
                #[trigger] lines.take(m),
            )).len() > budget by {
                lemma_concat_more(lines, n + 1, m);
            }
            n
        },
        None => 0,
    }
}

} // verus!
